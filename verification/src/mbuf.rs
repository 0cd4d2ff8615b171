//! The packet buffer (`struct rte_mbuf` of `rte_mbuf.h`): its reference
//! count, its indirect flag, and its return to its pool.
//!
//! An mbuf is known by a handle (its address); the next segment of a chain
//! and the pool an mbuf belongs to are handles too.
use vstd::prelude::*;
use crate::atomic::{Atomic16, set16, add16_return};
use crate::mempool::{Mempool, CacheModel, put, put_caches, put_flushed};

verus! {

/// Offload flag of an mbuf attached to another one's data
/// (`IND_ATTACHED_MBUF`, bit 62 of `ol_flags`).
pub const IND_ATTACHED_MBUF: u64 = 0x4000_0000_0000_0000;

/// The fields of `struct rte_mbuf` that this library reads and writes.
pub struct Mbuf {
    pub ol_flags: u64,
    pub refcnt_atomic: Atomic16,
    pub nb_segs: u16,
    /// Handle of the next segment of the chain, if any.
    pub next: Option<usize>,
    /// Index of the pool the mbuf belongs to.
    pub pool: usize,
}

/// The mbuf type under its DPDK name.
#[allow(non_camel_case_types)]
pub type rte_mbuf = Mbuf;

/// The cache models of every pool.
pub open spec fn pools_view(pools: Seq<Mempool>) -> Seq<Seq<CacheModel>> {
    pools.map_values(|p: Mempool| p.caches())
}

/// Every pool is well formed.
pub open spec fn pools_wf(pools: Seq<Mempool>) -> bool {
    forall|i: int| 0 <= i < pools.len() ==> #[trigger] pools[i].wf()
}

impl Mbuf {
    /// The reference count.
    pub open spec fn refcnt_spec(&self) -> u16 {
        self.refcnt_atomic.cnt
    }

    /// The mbuf is attached to another mbuf's data.
    pub open spec fn indirect_spec(&self) -> bool {
        self.ol_flags & IND_ATTACHED_MBUF != 0
    }

    /// Detaching an indirect mbuf from the mbuf whose data it uses is not
    /// done by this library: the mbuf is left as it is.
    pub fn detach(&self) {
    }

    /// Whether the mbuf is indirect.
    pub fn indirect(&self) -> (r: bool)
        ensures
            r == self.indirect_spec(),
    {
        self.ol_flags & IND_ATTACHED_MBUF != 0
    }

    /// The reference count.
    pub fn refcnt(&self) -> (r: u16)
        ensures
            r == self.refcnt_spec(),
    {
        self.refcnt_atomic.cnt
    }

    /// Sets the reference count to `new_value`.
    pub fn refcnt_set(&mut self, new_value: u16)
        ensures
            *final(self) == (Mbuf {
                refcnt_atomic: Atomic16 { cnt: new_value },
                ..*old(self)
            }),
    {
        set16(&mut self.refcnt_atomic, new_value);
    }

    /// Adds `value` to the reference count, modulo 2^16 (so a value of
    /// `2^16 - d` subtracts `d`), and returns the new count.
    pub fn refcnt_update(&mut self, value: u16) -> (r: u16)
        ensures
            r == (old(self).refcnt_spec() + value) % 0x1_0000,
            *final(self) == (Mbuf { refcnt_atomic: Atomic16 { cnt: r }, ..*old(self) }),
    {
        if self.refcnt() == 1 {
            let v = 1u16.wrapping_add(value);
            self.refcnt_set(v);
            return v;
        }
        add16_return(&mut self.refcnt_atomic, value)
    }

    /// Adds one to the reference count, modulo 2^16, and returns the new
    /// count.
    pub fn refcnt_inc(&mut self) -> (r: u16)
        ensures
            r == (old(self).refcnt_spec() + 1) % 0x1_0000,
            *final(self) == (Mbuf { refcnt_atomic: Atomic16 { cnt: r }, ..*old(self) }),
    {
        self.refcnt_update(1)
    }

    /// Puts this mbuf, known by handle `m`, back into its pool from lcore
    /// `lcore_id`. Returns the objects to enqueue to that pool's backend.
    pub fn raw_free(&self, m: usize, pools: &mut Vec<Mempool>, lcore_id: u32) -> (flushed: Vec<
        usize,
    >)
        requires
            self.pool < old(pools)@.len(),
            pools_wf(old(pools)@),
        ensures
            pools_wf(final(pools)@),
            pools_view(final(pools)@) == pools_view(old(pools)@).update(
                self.pool as int,
                put_caches(
                    old(pools)@[self.pool as int].caches(),
                    seq![m],
                    old(pools)@[self.pool as int].default_cache_spec(lcore_id),
                ),
            ),
            flushed@ == put_flushed(
                old(pools)@[self.pool as int].caches(),
                seq![m],
                old(pools)@[self.pool as int].default_cache_spec(lcore_id),
            ),
            old(pools)@[self.pool as int].local_cache@.len() > 0 && lcore_id < 128
                ==> pools_view(final(pools)@)[self.pool as int] == pools_view(old(pools)@)[self.pool as int].update(
                lcore_id as int,
                pools_view(old(pools)@)[self.pool as int][lcore_id as int].put(seq![m]),
            ) && flushed@ == pools_view(old(pools)@)[self.pool as int][lcore_id as int].flushed(
                seq![m],
            ),
            old(pools)@[self.pool as int].local_cache@.len() == 0 || lcore_id >= 128
                ==> pools_view(final(pools)@) == pools_view(old(pools)@) && flushed@ == seq![m],
    {
        proof {
            crate::mempool::lemma_put_routes(pools@[self.pool as int].caches(), seq![m], lcore_id);
            assert(pools_view(pools@)[self.pool as int] == pools@[self.pool as int].caches());
        }
        let ghost pre = pools@;
        let p = self.pool;
        assert(pools@[p as int].wf());
        let flushed = put(&mut pools[p], lcore_id, m);
        assert(pools_view(pools@) =~= pools_view(pre).update(p as int, pools@[p as int].caches()));
        flushed
    }
}

} // verus!
