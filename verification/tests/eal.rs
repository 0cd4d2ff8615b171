use rust_dpdk::eal::{call_master_mode, split_args, RmtCallMaster};

fn strings(v: &[&str]) -> Vec<String> {
    v.iter().map(|s| s.to_string()).collect()
}

#[test]
fn split_without_separator_gives_everything_to_eal() {
    let (eal, app) = split_args(&strings(&["prog", "-c", "f", "-n", "2"]));
    assert_eq!(eal, strings(&["prog", "-c", "f", "-n", "2"]));
    assert_eq!(app, None);
}

#[test]
fn split_at_the_separator() {
    let (eal, app) = split_args(&strings(&["prog", "-cf", "-n2", "--", "-p3"]));
    assert_eq!(eal, strings(&["prog", "-cf", "-n2"]));
    assert_eq!(app, Some(strings(&["-p3"])));
}

#[test]
fn application_part_stops_at_a_second_separator() {
    let (eal, app) = split_args(&strings(&["prog", "--", "-p", "3", "--", "-x"]));
    assert_eq!(eal, strings(&["prog"]));
    assert_eq!(app, Some(strings(&["-p", "3"])));
}

#[test]
fn trailing_separator_gives_empty_application_part() {
    let (eal, app) = split_args(&strings(&["prog", "--"]));
    assert_eq!(eal, strings(&["prog"]));
    assert_eq!(app, Some(vec![]));
    let (eal, app) = split_args(&vec![]);
    assert_eq!(eal, Vec::<String>::new());
    assert_eq!(app, None);
}

#[test]
fn launch_mode() {
    assert!(matches!(call_master_mode(true), RmtCallMaster::CallMaster));
    assert!(matches!(call_master_mode(false), RmtCallMaster::SkipMaster));
}
