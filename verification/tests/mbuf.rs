use rust_dpdk::atomic::{add16_return, set16, sub16_return, Atomic16};
use rust_dpdk::mbuf::{Mbuf, IND_ATTACHED_MBUF};
use rust_dpdk::mempool::{Mempool, MempoolCache};
use rust_dpdk::pktmbuf::{free, free_seg, prefree_seg};

fn mbuf(refcnt: u16, next: Option<usize>, pool: usize) -> Mbuf {
    Mbuf { ol_flags: 0, refcnt_atomic: Atomic16 { cnt: refcnt }, nb_segs: 3, next, pool }
}

fn pool(size: u32, flushthresh: u32) -> Mempool {
    Mempool {
        local_cache: (0..128)
            .map(|_| MempoolCache { size, flushthresh, len: 0, objs: vec![] })
            .collect(),
    }
}

#[test]
fn atomic_counter() {
    let mut a = Atomic16 { cnt: 5 };
    set16(&mut a, 10);
    assert_eq!(a.cnt, 10);
    assert_eq!(add16_return(&mut a, 7), 17);
    assert_eq!(a.cnt, 17);
    assert_eq!(sub16_return(&mut a, 17), 0);
    assert_eq!(a.cnt, 0);
    assert_eq!(add16_return(&mut a, u16::MAX), u16::MAX);
    // both operations wrap at 2^16
    assert_eq!(add16_return(&mut a, 3), 2);
    assert_eq!(sub16_return(&mut a, 5), u16::MAX - 2);
    assert_eq!(a.cnt, u16::MAX - 2);
}

#[test]
fn refcount_operations() {
    let mut m = mbuf(1, None, 0);
    assert_eq!(m.refcnt(), 1);
    assert_eq!(m.refcnt_update(4), 5);
    assert_eq!(m.refcnt(), 5);
    assert_eq!(m.refcnt_update(2), 7);
    assert_eq!(m.refcnt_inc(), 8);
    m.refcnt_set(2);
    assert_eq!(m.refcnt(), 2);
    assert_eq!(m.nb_segs, 3);
    // adding 2^16 - 1 takes one off
    assert_eq!(m.refcnt_update(u16::MAX), 1);
    assert_eq!(m.refcnt_update(u16::MAX), 0);
    m.refcnt_set(u16::MAX);
    assert_eq!(m.refcnt_inc(), 0);
}

#[test]
fn indirect_flag() {
    let mut m = mbuf(1, None, 0);
    assert!(!m.indirect());
    m.ol_flags = IND_ATTACHED_MBUF | 1;
    assert!(m.indirect());
    m.detach();
    assert!(m.indirect());
    assert_eq!(m.ol_flags, IND_ATTACHED_MBUF | 1);
    m.ol_flags = !IND_ATTACHED_MBUF;
    assert!(!m.indirect());
}

#[test]
fn raw_free_puts_the_handle_into_its_pool() {
    let m = mbuf(1, None, 1);
    let mut pools = vec![pool(2, 3), pool(1, 1)];
    let flushed = m.raw_free(40, &mut pools, 2);
    // pool 1 flushes at one object, keeping one: nothing leaves
    assert_eq!(flushed, Vec::<usize>::new());
    assert_eq!(pools[1].local_cache[2].objs, vec![40]);
    let flushed = m.raw_free(41, &mut pools, 2);
    assert_eq!(flushed, vec![41]);
    assert_eq!(pools[0].local_cache[2].len, 0);
}

#[test]
fn prefree_segment() {
    let mut mbufs = vec![mbuf(1, Some(1), 0), mbuf(3, None, 0)];
    assert_eq!(prefree_seg(&mut mbufs, 0), Some(0));
    assert_eq!(mbufs[0].next, None);
    assert_eq!(mbufs[0].nb_segs, 1);
    assert_eq!(mbufs[0].refcnt(), 1);
    assert_eq!(prefree_seg(&mut mbufs, 1), None);
    assert_eq!(mbufs[1].refcnt(), 2);
    assert_eq!(mbufs[1].nb_segs, 3);
    // an indirect segment goes back with its flags as they were
    let mut mbufs = vec![mbuf(1, None, 0)];
    mbufs[0].ol_flags = IND_ATTACHED_MBUF;
    assert_eq!(prefree_seg(&mut mbufs, 0), Some(0));
    assert!(mbufs[0].indirect());
    // a count of zero wraps and the segment stays
    let mut mbufs = vec![mbuf(0, None, 0)];
    assert_eq!(prefree_seg(&mut mbufs, 0), None);
    assert_eq!(mbufs[0].refcnt(), u16::MAX);
}

#[test]
fn take_a_reference_then_free_restores_the_count() {
    let mut mbufs = vec![mbuf(1, None, 0)];
    let mut pools = vec![pool(4, 6)];
    mbufs[0].refcnt_update(1);
    let out = free_seg(&mut mbufs, &mut pools, 0, 0);
    assert!(out.is_empty());
    assert_eq!(mbufs[0].refcnt(), 1);
    assert_eq!(pools[0].local_cache[0].len, 0);
}

#[test]
fn free_a_chain() {
    // chain 2 -> 0 -> 3, segment 0 shared
    let mut mbufs = vec![
        mbuf(2, Some(3), 0),
        mbuf(1, None, 0),
        mbuf(1, Some(0), 0),
        mbuf(1, None, 1),
    ];
    let mut pools = vec![pool(4, 6), pool(0, 1)];
    let out = free(&mut mbufs, &mut pools, 7, Some(2));
    // segment 2 went to pool 0's cache of lcore 7, segment 3 straight
    // through pool 1's cache to its backend
    assert_eq!(out, vec![(1, 3)]);
    assert_eq!(pools[0].local_cache[7].objs, vec![2]);
    assert_eq!(pools[1].local_cache[7].len, 0);
    assert_eq!(mbufs[2].next, None);
    assert_eq!(mbufs[2].nb_segs, 1);
    assert_eq!(mbufs[0].refcnt(), 1);
    assert_eq!(mbufs[0].next, Some(3));
    assert_eq!(mbufs[1].refcnt(), 1);
    assert_eq!(mbufs[1].nb_segs, 3);
}

#[test]
fn free_nothing() {
    let mut mbufs = vec![mbuf(1, None, 0)];
    let mut pools = vec![pool(4, 6)];
    assert!(free(&mut mbufs, &mut pools, 0, None).is_empty());
    assert_eq!(mbufs[0].refcnt(), 1);
}
