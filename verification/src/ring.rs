//! The single-producer enqueue and single-consumer dequeue of `rte_ring.h`.
//!
//! A ring holds `size` slots (a power of two), of which at most `capacity`
//! (below `size`) are in use. The producer and consumer indices run freely
//! and wrap modulo 2^32; the object at index `i` lives in slot
//! `i & mask`, with `mask == size - 1`. The objects in the ring are those of
//! indices `cons_tail .. prod_tail`, oldest first.
use vstd::prelude::*;
use vstd::arithmetic::power2::{pow2, lemma_pow2_pos, lemma_pow2_adds};
use vstd::bits::{low_bits_mask, lemma_u32_low_bits_mask_is_mod};
use vstd::arithmetic::div_mod::{
    lemma_fundamental_div_mod,
    lemma_mod_multiples_vanish,
    lemma_small_mod,
    lemma_add_mod_noop,
    lemma_mod_sub_multiples_vanish,
};

verus! {

/// Largest ring size accepted (`RTE_RING_SZ_MASK`).
pub const RTE_RING_SZ_MASK: u32 = 0x7fff_ffff;

/// A ring of object handles, as `struct rte_ring` followed by its slots.
pub struct Ring {
    pub size: u32,
    pub mask: u32,
    pub capacity: u32,
    pub prod_head: u32,
    pub prod_tail: u32,
    pub cons_head: u32,
    pub cons_tail: u32,
    pub slots: Vec<usize>,
}

/// The ring type under its DPDK name.
#[allow(non_camel_case_types)]
pub type rte_ring = Ring;

/// The mathematical value of a [`Ring`].
pub ghost struct RingModel {
    pub size: nat,
    pub mask: nat,
    pub capacity: nat,
    pub prod_head: nat,
    pub prod_tail: nat,
    pub cons_head: nat,
    pub cons_tail: nat,
    pub slots: Seq<usize>,
}

impl View for Ring {
    type V = RingModel;

    open spec fn view(&self) -> RingModel {
        RingModel {
            size: self.size as nat,
            mask: self.mask as nat,
            capacity: self.capacity as nat,
            prod_head: self.prod_head as nat,
            prod_tail: self.prod_tail as nat,
            cons_head: self.cons_head as nat,
            cons_tail: self.cons_tail as nat,
            slots: self.slots@,
        }
    }
}

/// 2^32, the period of the ring indices.
pub open spec fn index_period() -> int {
    0x1_0000_0000
}

/// `a + b` on ring indices (modulo 2^32), for `a, b < 2^32`.
pub open spec fn wadd(a: nat, b: nat) -> nat {
    if a + b >= index_period() {
        (a + b - index_period()) as nat
    } else {
        a + b
    }
}

/// `a - b` on ring indices (modulo 2^32), for `a, b < 2^32`.
pub open spec fn wsub(a: nat, b: nat) -> nat {
    if a >= b {
        (a - b) as nat
    } else {
        (a - b + index_period()) as nat
    }
}

/// Distance, going forward around a ring of `size` slots, from the slot of
/// index `start` to slot `p`.
pub open spec fn slot_offset(p: int, start: int, size: int) -> int {
    let d = p - start % size;
    if d >= 0 {
        d
    } else {
        d + size
    }
}

impl RingModel {
    /// The size is a power of two no larger than `RTE_RING_SZ_MASK` and the
    /// mask is `size - 1`.
    pub open spec fn size_ok(self) -> bool {
        &&& exists|k: nat| k < 32 && self.size == pow2(k) && self.mask == low_bits_mask(k)
        &&& self.size <= RTE_RING_SZ_MASK
    }

    /// Number of objects in the ring.
    pub open spec fn used(self) -> nat {
        wsub(self.prod_tail, self.cons_tail)
    }

    /// Well-formedness: one slot per index, a capacity below the size, heads
    /// equal to tails (no operation in flight), and at most `capacity`
    /// objects in the ring.
    pub open spec fn wf(self) -> bool {
        &&& self.size_ok()
        &&& self.slots.len() == self.size
        &&& self.capacity <= self.mask
        &&& self.prod_head == self.prod_tail
        &&& self.cons_head == self.cons_tail
        &&& self.prod_tail < index_period()
        &&& self.cons_tail < index_period()
        &&& self.used() <= self.capacity
    }

    /// The slot of index `i`.
    pub open spec fn slot_of(self, i: int) -> usize {
        self.slots[i % (self.size as int)]
    }

    /// The objects in the ring, oldest first.
    pub open spec fn contents(self) -> Seq<usize> {
        Seq::new(self.used(), |i: int| self.slot_of(self.cons_tail + i))
    }

    /// Number of free entries seen by the producer.
    pub open spec fn free_entries(self) -> nat {
        (self.capacity - wsub(self.prod_head, self.cons_tail)) as nat
    }

    /// How many of `n` requested objects an enqueue moves.
    pub open spec fn enqueue_count(self, n: nat) -> nat {
        if n > self.free_entries() {
            self.free_entries()
        } else {
            n
        }
    }

    /// How many of `n` requested objects a dequeue moves.
    pub open spec fn dequeue_count(self, n: nat) -> nat {
        let avail = wsub(self.prod_tail, self.cons_head);
        if n > avail {
            avail
        } else {
            n
        }
    }

    /// The ring after a single-producer enqueue of `n` objects from `objs`:
    /// object `i` goes to the slot of index `prod_head + i`.
    pub open spec fn enqueue(self, objs: Seq<usize>, n: nat) -> RingModel {
        let k = self.enqueue_count(n);
        let head = wadd(self.prod_head, k);
        RingModel {
            prod_head: head,
            prod_tail: head,
            slots: Seq::new(
                self.size,
                |p: int|
                    if slot_offset(p, self.prod_head as int, self.size as int) < k {
                        objs[slot_offset(p, self.prod_head as int, self.size as int)]
                    } else {
                        self.slots[p]
                    },
            ),
            ..self
        }
    }

    /// The ring after a single-consumer dequeue of `n` objects.
    pub open spec fn dequeue(self, n: nat) -> RingModel {
        let head = wadd(self.cons_head, self.dequeue_count(n));
        RingModel { cons_head: head, cons_tail: head, ..self }
    }

    /// What a single-consumer dequeue of `n` objects leaves in an output
    /// table that held `out` before: entry `i` below the count moved is the
    /// object of index `cons_head + i`.
    pub open spec fn dequeued(self, n: nat, out: Seq<usize>) -> Seq<usize> {
        let k = self.dequeue_count(n);
        Seq::new(
            out.len(),
            |i: int|
                if i < k {
                    self.slot_of(self.cons_head + i)
                } else {
                    out[i]
                },
        )
    }

    /// The ring holds no object.
    pub open spec fn is_empty(self) -> bool {
        self.prod_tail == self.cons_tail
    }
}

/// For a well-formed size, `x & mask` is `x % size`, the size is positive,
/// and it divides 2^32.
proof fn lemma_mask_is_mod(r: RingModel, x: u32)
    requires
        r.size_ok(),
    ensures
        r.size > 0,
        r.mask + 1 == r.size,
        (x & (r.mask as u32)) == x % (r.size as u32),
        index_period() % (r.size as int) == 0,
{
    let k = choose|k: nat| k < 32 && r.size == pow2(k) && r.mask == low_bits_mask(k);
    lemma_pow2_pos(k);
    lemma_u32_low_bits_mask_is_mod(x, k);
    let j = (32 - k) as nat;
    lemma_pow2_adds(k, j);
    assert(k + j == 32);
    vstd::arithmetic::power2::lemma2_to64();
    lemma_pow2_pos(j);
    vstd::arithmetic::div_mod::lemma_mod_multiples_basic(pow2(j) as int, pow2(k) as int);
    assert(pow2(k) * pow2(j) == pow2(j) * pow2(k)) by (nonlinear_arith);
    assert(index_period() == pow2(j) * pow2(k));
}

/// Stepping `q < size` slots forward from index `head`.
proof fn lemma_mod_step(head: int, q: int, size: int)
    requires
        size > 0,
        0 <= q < size,
    ensures
        (head + q) % size == if head % size + q < size {
            head % size + q
        } else {
            head % size + q - size
        },
{
    let idx = head % size;
    lemma_add_mod_noop(head, q, size);
    lemma_small_mod(q as nat, size as nat);
    if idx + q < size {
        lemma_small_mod((idx + q) as nat, size as nat);
    } else {
        lemma_mod_sub_multiples_vanish(idx + q, size);
        lemma_small_mod((idx + q - size) as nat, size as nat);
    }
}

/// The forward distance from the slot of index `b` to the slot of index
/// `a` is `(a - b) % size`.
proof fn lemma_slot_offset(a: int, b: int, size: int)
    requires
        size > 0,
    ensures
        slot_offset(a % size, b, size) == (a - b) % size,
        0 <= slot_offset(a % size, b, size) < size,
{
    lemma_fundamental_div_mod(a, size);
    lemma_fundamental_div_mod(b, size);
    let d = a % size - b % size;
    assert(a - b == size * (a / size - b / size) + d) by (nonlinear_arith)
        requires
            a == size * (a / size) + a % size,
            b == size * (b / size) + b % size,
            d == a % size - b % size,
    ;
    lemma_mod_multiples_vanish(a / size - b / size, d, size);
    if d >= 0 {
        lemma_small_mod(d as nat, size as nat);
    } else {
        lemma_mod_multiples_vanish(-1, d + size, size);
        lemma_small_mod((d + size) as nat, size as nat);
        assert(size * -1 + (d + size) == d);
    }
}

/// Indices equal modulo 2^32 address the same slot.
proof fn lemma_period_slot(x: int, e: int, size: int)
    requires
        size > 0,
        index_period() % size == 0,
    ensures
        (x + e * index_period()) % size == x % size,
{
    let q = index_period() / size;
    lemma_fundamental_div_mod(index_period(), size);
    assert(e * index_period() == size * (e * q)) by (nonlinear_arith)
        requires
            index_period() == size * q,
    ;
    lemma_mod_multiples_vanish(e * q, x, size);
}

/// Enqueueing puts the objects moved at the end of the ring's contents and
/// keeps the ring well formed; it moves as many objects as were asked for,
/// or fills the ring.
pub proof fn lemma_enqueue_semantics(r: RingModel, objs: Seq<usize>, n: nat)
    requires
        r.wf(),
        r.enqueue_count(n) <= objs.len(),
    ensures
        r.enqueue(objs, n).wf(),
        r.enqueue(objs, n).contents() == r.contents() + objs.take(r.enqueue_count(n) as int),
        r.enqueue_count(n) == n || r.enqueue(objs, n).used() == r.capacity,

{
    lemma_mask_is_mod(r, 0);
    let size = r.size as int;
    let ct = r.cons_tail as int;
    let h = r.prod_head as int;
    let u = r.used() as int;
    let k = r.enqueue_count(n) as int;
    // the producer head is the index `cons_tail + used`, up to the period
    let e: int = if ct + u >= index_period() {
        -1
    } else {
        0
    };
    assert(h == ct + u + e * index_period());
    let r1 = r.enqueue(objs, n);
    assert(r1.used() == u + k);
    assert forall|i: int| 0 <= i < u + k implies #[trigger] r1.contents()[i] == (r.contents()
        + objs.take(k))[i] by {
        lemma_period_slot(ct + i, 0, size);
        let p = (ct + i) % size;
        lemma_slot_offset(ct + i, h, size);
        lemma_period_slot(i - u, -e, size);
        assert(ct + i - h == (i - u) + (-e) * index_period());
        if i < u {
            lemma_mod_multiples_vanish(1, i - u, size);
            lemma_small_mod((i - u + size) as nat, size as nat);
            assert(slot_offset(p, h, size) == i - u + size);
        } else {
            lemma_small_mod((i - u) as nat, size as nat);
            assert(slot_offset(p, h, size) == i - u);
        }
    }
    assert(r1.contents() =~= r.contents() + objs.take(k));
}

/// Dequeueing hands out the first objects of the ring's contents, oldest
/// first, and removes them; it keeps the ring well formed and moves as many
/// objects as were asked for, or empties the ring.
pub proof fn lemma_dequeue_semantics(r: RingModel, n: nat, out: Seq<usize>)
    requires
        r.wf(),
        r.dequeue_count(n) <= out.len(),
    ensures
        r.dequeue(n).wf(),
        r.dequeued(n, out).take(r.dequeue_count(n) as int) == r.contents().take(
            r.dequeue_count(n) as int,
        ),
        r.dequeue(n).contents() == r.contents().skip(r.dequeue_count(n) as int),
        r.dequeue_count(n) == n || r.dequeue(n).is_empty(),
{
    lemma_mask_is_mod(r, 0);
    let size = r.size as int;
    let ct = r.cons_tail as int;
    let u = r.used() as int;
    let d = r.dequeue_count(n) as int;
    let r2 = r.dequeue(n);
    let e2: int = if ct + d >= index_period() {
        1
    } else {
        0
    };
    assert(r2.cons_tail == ct + d - e2 * index_period());
    assert forall|i: int| 0 <= i < u - d implies #[trigger] r2.contents()[i] == r.contents().skip(
        d,
    )[i] by {
        lemma_period_slot(ct + d + i, -e2, size);
        assert(r2.cons_tail + i == ct + d + i + (-e2) * index_period());
    }
    assert(r2.contents() =~= r.contents().skip(d));
    assert(r.dequeued(n, out).take(d) =~= r.contents().take(d));
}

/// One call in a sequence: a single-producer enqueue offering all of
/// `objs`, or a single-consumer dequeue asking for `n` objects.
pub ghost enum RingOp {
    Enqueue(Seq<usize>),
    Dequeue(nat),
}

/// The ring after `ops`, the objects the enqueues accepted and the objects
/// the dequeues handed out, each in call order.
pub open spec fn run(r: RingModel, ops: Seq<RingOp>) -> (RingModel, Seq<usize>, Seq<usize>)
    decreases ops.len(),
{
    if ops.len() == 0 {
        (r, Seq::empty(), Seq::empty())
    } else {
        let (r0, acc, out) = run(r, ops.drop_last());
        match ops.last() {
            RingOp::Enqueue(objs) => {
                let k = r0.enqueue_count(objs.len());
                (r0.enqueue(objs, objs.len()), acc + objs.take(k as int), out)
            },
            RingOp::Dequeue(n) => {
                let k = r0.dequeue_count(n);
                (r0.dequeue(n), acc, out + r0.contents().take(k as int))
            },
        }
    }
}

/// First in, first out: over any sequence of single-producer enqueues and
/// single-consumer dequeues, the objects handed out followed by the objects
/// still in the ring are the objects in the ring at the start followed by
/// the objects accepted. From an empty ring, the objects handed out are
/// thus the first objects accepted, in order, none lost, duplicated or
/// invented.
pub proof fn lemma_fifo(r: RingModel, ops: Seq<RingOp>)
    requires
        r.wf(),
    ensures
        run(r, ops).0.wf(),
        run(r, ops).2 + run(r, ops).0.contents() == r.contents() + run(r, ops).1,
        r.is_empty() ==> run(r, ops).2 == run(r, ops).1.take(run(r, ops).2.len() as int),
    decreases ops.len(),
{
    if ops.len() > 0 {
        lemma_fifo(r, ops.drop_last());
        let (r0, acc, out) = run(r, ops.drop_last());
        match ops.last() {
            RingOp::Enqueue(objs) => {
                lemma_enqueue_semantics(r0, objs, objs.len());
                let k = r0.enqueue_count(objs.len()) as int;
                assert(out + (r0.contents() + objs.take(k)) =~= (out + r0.contents()) + objs.take(k));
                assert(r.contents() + (acc + objs.take(k)) =~= (r.contents() + acc) + objs.take(k));
            },
            RingOp::Dequeue(n) => {
                let k = r0.dequeue_count(n) as int;
                let out_tab = Seq::new(k as nat, |i: int| 0usize);
                lemma_dequeue_semantics(r0, n, out_tab);
                let c = r0.contents();
                assert(out + c.take(k) + c.skip(k) =~= out + c);
            },
        }
    }
    if r.is_empty() {
        assert(r.contents() =~= Seq::<usize>::empty());
        let (r1, acc, out) = run(r, ops);
        assert(Seq::<usize>::empty() + acc =~= acc);
        assert(out + r1.contents() == acc);
        assert(acc.take(out.len() as int) =~= out);
    }
}

impl Ring {
    /// Copies up to `n` objects of `objs` into the ring as its single
    /// producer, bounded by the free entries, and returns how many went in.
    pub fn do_enqueue_sp(&mut self, objs: &[usize], n: u32) -> (r: u32)
        requires
            old(self)@.wf(),
            old(self)@.enqueue_count(n as nat) <= objs@.len(),
        ensures
            r == old(self)@.enqueue_count(n as nat),
            final(self)@ == old(self)@.enqueue(objs@, n as nat),
            final(self)@.wf(),
            final(self)@.contents() == old(self)@.contents() + objs@.take(r as int),
    {
        let ghost pre = self@;
        proof {
            lemma_enqueue_semantics(pre, objs@, n as nat);
        }
        let used = self.prod_head.wrapping_sub(self.cons_tail);
        let spc = self.capacity - used;
        let mut copy_size = n;
        if copy_size > spc {
            copy_size = spc;
        }
        let idx = self.prod_head & self.mask;
        proof {
            lemma_mask_is_mod(pre, self.prod_head);
        }
        let size = self.size;
        let ghost head = self.prod_head as int;
        let ghost old_slots = pre.slots;
        assert(idx == head % (size as int));
        if idx + copy_size < size {
            let mut i: u32 = 0;
            while i < copy_size
                invariant
                    i <= copy_size,
                    idx + copy_size < size,
                    copy_size <= objs@.len(),
                    self.size == size,
                    self.prod_head == head,
                    self.prod_tail == pre.prod_tail,
                    self.cons_head == pre.cons_head,
                    self.cons_tail == pre.cons_tail,
                    self.capacity == pre.capacity,
                    self.mask == pre.mask,
                    self.slots@.len() == size,
                    old_slots.len() == size,
                    forall|p: int|
                        0 <= p < size ==> #[trigger] self.slots@[p] == if idx <= p < idx + i {
                            objs@[p - idx]
                        } else {
                            old_slots[p]
                        },
                decreases copy_size - i,
            {
                self.slots.set((idx + i) as usize, objs[i as usize]);
                i = i + 1;
            }
            assert forall|p: int| 0 <= p < size implies #[trigger] self.slots@[p] == if slot_offset(
                p,
                head,
                size as int,
            ) < copy_size {
                objs@[slot_offset(p, head, size as int)]
            } else {
                old_slots[p]
            } by {}
        } else {
            let hsz = size - idx;
            let mut i: u32 = 0;
            while i < hsz
                invariant
                    i <= hsz,
                    hsz == size - idx,
                    idx < size,
                    hsz <= copy_size,
                    copy_size <= objs@.len(),
                    self.size == size,
                    self.prod_head == head,
                    self.prod_tail == pre.prod_tail,
                    self.cons_head == pre.cons_head,
                    self.cons_tail == pre.cons_tail,
                    self.capacity == pre.capacity,
                    self.mask == pre.mask,
                    self.slots@.len() == size,
                    old_slots.len() == size,
                    forall|p: int|
                        0 <= p < size ==> #[trigger] self.slots@[p] == if idx <= p < idx + i {
                            objs@[p - idx]
                        } else {
                            old_slots[p]
                        },
                decreases hsz - i,
            {
                self.slots.set((idx + i) as usize, objs[i as usize]);
                i = i + 1;
            }
            let rest = copy_size - hsz;
            let mut j: u32 = 0;
            while j < rest
                invariant
                    j <= rest,
                    rest == copy_size - hsz,
                    hsz == size - idx,
                    idx < size,
                    copy_size <= objs@.len(),
                    copy_size <= size,
                    self.size == size,
                    self.prod_head == head,
                    self.prod_tail == pre.prod_tail,
                    self.cons_head == pre.cons_head,
                    self.cons_tail == pre.cons_tail,
                    self.capacity == pre.capacity,
                    self.mask == pre.mask,
                    self.slots@.len() == size,
                    old_slots.len() == size,
                    forall|p: int|
                        0 <= p < size ==> #[trigger] self.slots@[p] == if idx <= p {
                            objs@[p - idx]
                        } else if p < j {
                            objs@[hsz + p]
                        } else {
                            old_slots[p]
                        },
                decreases rest - j,
            {
                self.slots.set(j as usize, objs[(hsz + j) as usize]);
                j = j + 1;
            }
            assert forall|p: int| 0 <= p < size implies #[trigger] self.slots@[p] == if slot_offset(
                p,
                head,
                size as int,
            ) < copy_size {
                objs@[slot_offset(p, head, size as int)]
            } else {
                old_slots[p]
            } by {}
        }
        self.prod_head = self.prod_head.wrapping_add(copy_size);
        self.prod_tail = self.prod_head;
        let ghost post = pre.enqueue(objs@, n as nat);
        assert(copy_size == pre.enqueue_count(n as nat));
        assert(self@.slots =~= post.slots);
        assert(self@ == post);
        copy_size
    }

    /// Copies up to `n` objects out of the ring into `objs` as its single
    /// consumer, oldest first, bounded by the objects in the ring.
    pub fn do_dequeue_sc(&mut self, objs: &mut Vec<usize>, n: u32)
        requires
            old(self)@.wf(),
            old(self)@.dequeue_count(n as nat) <= old(objs)@.len(),
        ensures
            final(self)@ == old(self)@.dequeue(n as nat),
            final(objs)@ == old(self)@.dequeued(n as nat, old(objs)@),
            final(self)@.wf(),
            final(objs)@.take(old(self)@.dequeue_count(n as nat) as int) == old(self)@.contents().take(
                old(self)@.dequeue_count(n as nat) as int,
            ),
            final(self)@.contents() == old(self)@.contents().skip(
                old(self)@.dequeue_count(n as nat) as int,
            ),
    {
        let ghost pre = self@;
        let ghost old_out = objs@;
        proof {
            lemma_dequeue_semantics(pre, n as nat, old_out);
            lemma_mask_is_mod(pre, 0);
        }
        let spc = self.prod_tail.wrapping_sub(self.cons_head);
        let mut copy_size = n;
        if copy_size > spc {
            copy_size = spc;
        }
        let idx = self.cons_head & self.mask;
        proof {
            lemma_mask_is_mod(pre, self.cons_head);
        }
        let size = self.size;
        let ghost head = self.cons_head as int;
        assert(idx == head % (size as int));
        if idx + copy_size < size {
            let mut i: u32 = 0;
            while i < copy_size
                invariant
                    i <= copy_size,
                    idx + copy_size < size,
                    copy_size <= old_out.len(),
                    self@ == pre,
                    pre.slots.len() == size,
                    objs@.len() == old_out.len(),
                    forall|q: int|
                        0 <= q < old_out.len() ==> #[trigger] objs@[q] == if q < i {
                            pre.slots[idx + q]
                        } else {
                            old_out[q]
                        },
                decreases copy_size - i,
            {
                objs.set(i as usize, self.slots[(idx + i) as usize]);
                i = i + 1;
            }
        } else {
            let hsz = size - idx;
            let mut i: u32 = 0;
            while i < hsz
                invariant
                    i <= hsz,
                    hsz == size - idx,
                    idx < size,
                    hsz <= copy_size,
                    copy_size <= old_out.len(),
                    self@ == pre,
                    pre.slots.len() == size,
                    objs@.len() == old_out.len(),
                    forall|q: int|
                        0 <= q < old_out.len() ==> #[trigger] objs@[q] == if q < i {
                            pre.slots[idx + q]
                        } else {
                            old_out[q]
                        },
                decreases hsz - i,
            {
                objs.set(i as usize, self.slots[(idx + i) as usize]);
                i = i + 1;
            }
            let rest = copy_size - hsz;
            let mut j: u32 = 0;
            while j < rest
                invariant
                    j <= rest,
                    rest == copy_size - hsz,
                    hsz == size - idx,
                    idx < size,
                    copy_size <= old_out.len(),
                    copy_size <= size,
                    self@ == pre,
                    pre.slots.len() == size,
                    objs@.len() == old_out.len(),
                    forall|q: int|
                        0 <= q < old_out.len() ==> #[trigger] objs@[q] == if q < hsz {
                            pre.slots[idx + q]
                        } else if q < hsz + j {
                            pre.slots[q - hsz]
                        } else {
                            old_out[q]
                        },
                decreases rest - j,
            {
                objs.set((hsz + j) as usize, self.slots[j as usize]);
                j = j + 1;
            }
        }
        self.cons_head = self.cons_head.wrapping_add(copy_size);
        self.cons_tail = self.cons_head;
        let ghost want = pre.dequeued(n as nat, old_out);
        assert forall|q: int| 0 <= q < old_out.len() implies #[trigger] objs@[q] == want[q] by {
            if q < copy_size {
                lemma_mod_step(head, q, size as int);
            }
        }
        assert(objs@ =~= want);
    }
}

} // verus!
