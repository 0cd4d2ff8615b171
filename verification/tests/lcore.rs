use rust_dpdk::inline::{
    rte_get_first_lcore, rte_get_master_lcore, rte_get_next_lcore, rte_lcore_count,
    rte_lcore_is_enabled,
};
use rust_dpdk::lcore::{
    count, get_first, get_master, get_next, is_enabled, EalConfig, LcoreRole, RTE_MAX_LCORE,
};

fn config(enabled: &[u32], master: u32) -> EalConfig {
    let mut roles: Vec<LcoreRole> = (0..RTE_MAX_LCORE).map(|_| LcoreRole::Off).collect();
    for &i in enabled {
        roles[i as usize] = LcoreRole::Rte;
    }
    EalConfig { master_lcore: master, lcore_count: enabled.len() as u32, lcore_role: roles }
}

#[test]
fn count_and_master() {
    let cfg = config(&[0, 1, 2], 0);
    assert_eq!(count(&cfg), 3);
    assert_eq!(get_master(&cfg), 0);
    assert_eq!(rte_lcore_count(&cfg), 3);
    assert_eq!(rte_get_master_lcore(&cfg), 0);
}

#[test]
fn is_enabled_reads_the_role() {
    let mut cfg = config(&[0, 3], 0);
    cfg.lcore_role[5] = LcoreRole::Service;
    assert!(is_enabled(&cfg, 0));
    assert!(!is_enabled(&cfg, 1));
    assert!(is_enabled(&cfg, 3));
    assert!(!is_enabled(&cfg, 5));
    assert!(!is_enabled(&cfg, RTE_MAX_LCORE));
    assert!(!is_enabled(&cfg, u32::MAX));
    assert!(rte_lcore_is_enabled(&cfg, 3));
}

#[test]
fn get_first_finds_the_first_enabled_lcore() {
    let cfg = config(&[0, 1, 2], 0);
    assert_eq!(get_first(&cfg, false), 0);
    assert_eq!(get_first(&cfg, true), 1);
    let cfg = config(&[2, 3], 2);
    assert_eq!(get_first(&cfg, false), 2);
    assert_eq!(get_first(&cfg, true), 3);
    assert_eq!(rte_get_first_lcore(&cfg, false), 2);
    let cfg = config(&[], 0);
    assert_eq!(get_first(&cfg, false), RTE_MAX_LCORE);
}

#[test]
fn get_next_finds_the_next_enabled_lcore() {
    let cfg = config(&[0, 3, 9], 0);
    assert_eq!(get_next(&cfg, 0, false, false), 3);
    assert_eq!(get_next(&cfg, 3, false, false), 9);
    assert_eq!(get_next(&cfg, 9, false, false), RTE_MAX_LCORE);
    // starting from u32::MAX, as RTE_LCORE_FOREACH does
    assert_eq!(get_next(&cfg, u32::MAX, false, false), 0);
    assert_eq!(get_next(&cfg, u32::MAX, true, false), 3);
    // beyond the last lcore there is nothing to search
    assert_eq!(get_next(&cfg, RTE_MAX_LCORE + 5, false, false), RTE_MAX_LCORE + 6);
}

#[test]
fn get_next_wraps_round() {
    let cfg = config(&[0, 3, 9], 0);
    assert_eq!(get_next(&cfg, 9, false, true), 0);
    assert_eq!(get_next(&cfg, 9, true, true), 3);
    assert_eq!(get_next(&cfg, RTE_MAX_LCORE - 1, true, true), 3);
    assert_eq!(rte_get_next_lcore(&cfg, 3, true, true), 9);
}

#[test]
fn enumeration_visits_enabled_lcores_in_order() {
    let cfg = config(&[1, 4, 5, 127], 4);
    let mut seen = vec![];
    let mut i = get_first(&cfg, true);
    while i < RTE_MAX_LCORE {
        seen.push(i);
        i = get_next(&cfg, i, true, false);
    }
    assert_eq!(seen, vec![1, 5, 127]);
    let mut seen = vec![];
    let mut i = get_next(&cfg, u32::MAX, false, false);
    while i < RTE_MAX_LCORE {
        seen.push(i);
        i = get_next(&cfg, i, false, false);
    }
    assert_eq!(seen, vec![1, 4, 5, 127]);
}
