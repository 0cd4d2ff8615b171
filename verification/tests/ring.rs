use rust_dpdk::ring::Ring;

const N: usize = 0;
const A: usize = 0xa;
const B: usize = 0xb;
const C: usize = 0xc;
const D: usize = 0xd;

fn ring4() -> Ring {
    Ring {
        size: 4,
        mask: 3,
        capacity: 3,
        prod_head: 0,
        prod_tail: 0,
        cons_head: 0,
        cons_tail: 0,
        slots: vec![N; 4],
    }
}

#[test]
fn enqueue_fills_from_the_producer_head() {
    let mut r = ring4();
    assert_eq!(r.do_enqueue_sp(&[A, B], 2), 2);
    assert_eq!(r.slots, vec![A, B, N, N]);
    assert_eq!((r.prod_head, r.prod_tail, r.cons_head, r.cons_tail), (2, 2, 0, 0));
}

#[test]
fn enqueue_returns_how_many_went_in() {
    let mut r = ring4();
    assert_eq!(r.do_enqueue_sp(&[A, B, C, D], 4), 3);
    assert_eq!(r.slots, vec![A, B, C, N]);
    assert_eq!((r.prod_head, r.prod_tail), (3, 3));
    // a full ring takes nothing and changes nothing
    assert_eq!(r.do_enqueue_sp(&[D], 1), 0);
    assert_eq!(r.slots, vec![A, B, C, N]);
    assert_eq!(r.prod_head, 3);
}

#[test]
fn dequeue_reads_from_the_consumer_head() {
    let mut r = ring4();
    r.do_enqueue_sp(&[A, B], 2);
    let mut out = vec![0x99, 0x99];
    r.do_dequeue_sc(&mut out, 1);
    assert_eq!(out, vec![A, 0x99]);
    assert_eq!((r.cons_head, r.cons_tail, r.prod_head, r.prod_tail), (1, 1, 2, 2));
    assert_eq!(r.slots, vec![A, B, N, N]);
}

#[test]
fn objects_leave_in_the_order_they_entered() {
    let mut r = ring4();
    r.do_enqueue_sp(&[A, B], 2);
    let mut out = vec![0];
    r.do_dequeue_sc(&mut out, 1);
    assert_eq!(out, vec![A]);
    r.do_dequeue_sc(&mut out, 1);
    assert_eq!(out, vec![B]);
    r.do_enqueue_sp(&[C], 1);
    r.do_enqueue_sp(&[D], 1);
    let mut out = vec![0; 3];
    r.do_dequeue_sc(&mut out, 3);
    assert_eq!(out, vec![C, D, 0]);
}

#[test]
fn an_entry_not_yet_dequeued_is_not_overwritten() {
    let mut r = ring4();
    r.do_enqueue_sp(&[A], 1);
    r.do_enqueue_sp(&[B, C], 2);
    assert_eq!(r.slots, vec![A, B, C, N]);
    let mut out = vec![0; 3];
    r.do_dequeue_sc(&mut out, 3);
    assert_eq!(out, vec![A, B, C]);
}

#[test]
fn dequeue_is_bounded_by_the_objects_in_the_ring() {
    let mut r = ring4();
    r.do_enqueue_sp(&[7], 1);
    let mut out = vec![100, 200, 300];
    r.do_dequeue_sc(&mut out, 3);
    assert_eq!(r.cons_head, 1);
    assert_eq!(out, vec![7, 200, 300]);
    let mut out2 = vec![5];
    r.do_dequeue_sc(&mut out2, 1);
    assert_eq!(out2, vec![5]);
    assert_eq!(r.cons_head, 1);
}

#[test]
fn batches_cross_the_end_of_the_slots() {
    let mut r = ring4();
    r.do_enqueue_sp(&[1, 2, 3], 3);
    let mut out = vec![0; 3];
    r.do_dequeue_sc(&mut out, 3);
    assert_eq!(out, vec![1, 2, 3]);
    assert_eq!(r.do_enqueue_sp(&[4, 5], 2), 2);
    assert_eq!(r.slots, vec![5, 2, 3, 4]);
    let mut out = vec![0; 2];
    r.do_dequeue_sc(&mut out, 2);
    assert_eq!(out, vec![4, 5]);
    assert_eq!(r.cons_tail, 5);
}

#[test]
fn indices_wrap_past_u32_max() {
    let mut r = ring4();
    let start = u32::MAX - 1;
    r.prod_head = start;
    r.prod_tail = start;
    r.cons_head = start;
    r.cons_tail = start;
    assert_eq!(r.do_enqueue_sp(&[A, B, C], 3), 3);
    assert_eq!(r.prod_head, 1);
    // index u32::MAX - 1 is slot 2
    assert_eq!(r.slots, vec![C, N, A, B]);
    let mut out = vec![0; 2];
    r.do_dequeue_sc(&mut out, 2);
    assert_eq!(out, vec![A, B]);
    assert_eq!(r.cons_head, 0);
    r.do_dequeue_sc(&mut out, 2);
    assert_eq!(out, vec![C, B]);
    assert_eq!(r.cons_tail, 1);
    // empty again: nothing comes out
    r.do_dequeue_sc(&mut out, 1);
    assert_eq!(out, vec![C, B]);
}
