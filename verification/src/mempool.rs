//! The put path of `rte_mempool.h`: objects go to the calling lcore's
//! cache, and the cache hands its objects above `size` to the pool's
//! backend once it reaches its flush threshold.
//!
//! The backend itself (the pool's ops table) is outside this library: the
//! put functions return the objects that are to be enqueued to it, in
//! order.
use vstd::prelude::*;
use crate::lcore::RTE_MAX_LCORE;

verus! {

/// Largest number of objects a put may store in a cache
/// (`RTE_MEMPOOL_CACHE_MAX_SIZE`).
pub const RTE_MEMPOOL_CACHE_MAX_SIZE: u32 = 512;

/// Number of object slots of a cache (`RTE_MEMPOOL_CACHE_MAX_SIZE * 3`).
pub const CACHE_OBJS_LEN: u32 = 1536;

/// A per-lcore object cache (`struct rte_mempool_cache`); `objs` holds the
/// `len` cached objects.
pub struct MempoolCache {
    pub size: u32,
    pub flushthresh: u32,
    pub len: u32,
    pub objs: Vec<usize>,
}

/// The cache type under its DPDK name.
#[allow(non_camel_case_types)]
pub type rte_mempool_cache = MempoolCache;

/// The mathematical value of a [`MempoolCache`].
pub ghost struct CacheModel {
    pub size: nat,
    pub flushthresh: nat,
    pub objs: Seq<usize>,
}

impl View for MempoolCache {
    type V = CacheModel;

    open spec fn view(&self) -> CacheModel {
        CacheModel { size: self.size as nat, flushthresh: self.flushthresh as nat, objs: self.objs@ }
    }
}

impl CacheModel {
    /// The cache never holds more than its flush threshold, the threshold is
    /// at least the size, and a put of at most `RTE_MEMPOOL_CACHE_MAX_SIZE`
    /// objects always fits in the object slots.
    pub open spec fn wf(self) -> bool {
        &&& self.objs.len() <= self.flushthresh
        &&& self.size <= self.flushthresh
        &&& self.flushthresh + RTE_MEMPOOL_CACHE_MAX_SIZE <= CACHE_OBJS_LEN
    }

    /// The cached objects followed by the objects put.
    pub open spec fn filled(self, table: Seq<usize>) -> Seq<usize> {
        self.objs + table
    }

    /// The put reaches the flush threshold.
    pub open spec fn flushes(self, table: Seq<usize>) -> bool {
        self.filled(table).len() >= self.flushthresh
    }

    /// The cache after a put of `table`.
    pub open spec fn put(self, table: Seq<usize>) -> CacheModel {
        if self.flushes(table) {
            CacheModel { objs: self.filled(table).take(self.size as int), ..self }
        } else {
            CacheModel { objs: self.filled(table), ..self }
        }
    }

    /// The objects a put of `table` hands to the backend.
    pub open spec fn flushed(self, table: Seq<usize>) -> Seq<usize> {
        if self.flushes(table) {
            self.filled(table).skip(self.size as int)
        } else {
            Seq::empty()
        }
    }
}


/// A cache put loses and invents no object: the objects the cache held
/// followed by the objects put are the objects it holds after, followed by
/// the objects handed to the backend. The cache stays well formed, and after
/// a flush it holds exactly `size` objects.
pub proof fn lemma_cache_put_conserves(c: CacheModel, table: Seq<usize>)
    requires
        c.wf(),
        table.len() <= RTE_MEMPOOL_CACHE_MAX_SIZE,
    ensures
        c.put(table).objs + c.flushed(table) == c.objs + table,
        c.put(table).wf(),
        c.flushes(table) ==> c.put(table).objs.len() == c.size,
        !c.flushes(table) ==> c.flushed(table).len() == 0,
{
    let f = c.filled(table);
    if c.flushes(table) {
        assert(f.take(c.size as int) + f.skip(c.size as int) =~= f);
    } else {
        assert(f + Seq::<usize>::empty() =~= f);
    }
}

/// A cache put flushes exactly when the cache reaches its flush threshold:
/// below it, nothing goes to the backend and the cache holds its objects
/// followed by the objects put; at or above it, the cache keeps the first
/// `size` of those and hands the rest, in order, to the backend.
pub proof fn lemma_cache_put_threshold(c: CacheModel, table: Seq<usize>)
    ensures
        c.objs.len() + table.len() < c.flushthresh ==> c.flushed(table).len() == 0 && c.put(
            table,
        ).objs == c.objs + table,
        c.objs.len() + table.len() >= c.flushthresh ==> c.put(table).objs == (c.objs + table).take(
            c.size as int,
        ) && c.flushed(table) == (c.objs + table).skip(c.size as int),
        c.put(table).size == c.size && c.put(table).flushthresh == c.flushthresh,
{
}

/// Where a put of `table` from lcore `lcore_id` goes: through that lcore's
/// cache when the pool has caches, the id is an lcore's and the table holds
/// at most `RTE_MEMPOOL_CACHE_MAX_SIZE` objects (every lcore, 0 included);
/// otherwise all of `table` goes to the backend and no cache changes.
pub proof fn lemma_put_routes(caches: Seq<CacheModel>, table: Seq<usize>, lcore_id: u32)
    ensures
        caches.len() > 0 && lcore_id < 128 && table.len() <= 512 ==> put_caches(
            caches,
            table,
            cache_index(caches, lcore_id),
        ) == caches.update(lcore_id as int, caches[lcore_id as int].put(table)) && put_flushed(
            caches,
            table,
            cache_index(caches, lcore_id),
        ) == caches[lcore_id as int].flushed(table),
        caches.len() == 0 || lcore_id >= 128 || table.len() > 512 ==> put_caches(
            caches,
            table,
            cache_index(caches, lcore_id),
        ) == caches && put_flushed(caches, table, cache_index(caches, lcore_id)) == table,
{
}

/// A put into a pool loses and invents no object, whichever way it goes:
/// only the cache the put goes through changes, and that cache's objects
/// before followed by the objects put are its objects after followed by the
/// objects handed to the backend; a put that bypasses the caches hands all
/// its objects to the backend.
pub proof fn lemma_put_conserves(caches: Seq<CacheModel>, table: Seq<usize>, cache: Option<u32>)
    requires
        forall|i: int| 0 <= i < caches.len() ==> #[trigger] caches[i].wf(),
        cache matches Some(c) ==> c < caches.len(),
    ensures
        put_caches(caches, table, cache).len() == caches.len(),
        forall|i: int|
            0 <= i < caches.len() && cache != Some(i as u32) ==> #[trigger] put_caches(
                caches,
                table,
                cache,
            )[i] == caches[i],
        match cache {
            Some(c) if table.len() <= RTE_MEMPOOL_CACHE_MAX_SIZE => put_caches(caches, table, cache)[c as int].objs
                + put_flushed(caches, table, cache) == caches[c as int].objs + table,
            _ => put_flushed(caches, table, cache) == table,
        },
{
    match cache {
        Some(c) => {
            if table.len() <= RTE_MEMPOOL_CACHE_MAX_SIZE {
                lemma_cache_put_conserves(caches[c as int], table);
            }
        },
        None => {},
    }
}

impl MempoolCache {
    /// Well-formedness: `len` counts the cached objects, and the model is
    /// well formed.
    pub open spec fn wf(&self) -> bool {
        &&& self.objs@.len() == self.len
        &&& self@.wf()
    }

    /// Stores the objects of `table` (at most `RTE_MEMPOOL_CACHE_MAX_SIZE`)
    /// in the cache; once the cache reaches its flush threshold, the objects
    /// above `size` leave it and are returned, to be enqueued to the backend.
    pub fn put(&mut self, table: &[usize]) -> (flushed: Vec<usize>)
        requires
            old(self).wf(),
            table@.len() <= RTE_MEMPOOL_CACHE_MAX_SIZE,
        ensures
            final(self).wf(),
            final(self)@ == old(self)@.put(table@),
            flushed@ == old(self)@.flushed(table@),
            old(self).objs@.len() + table@.len() < old(self).flushthresh ==> flushed@.len() == 0
                && final(self).objs@ == old(self).objs@ + table@,
            old(self).objs@.len() + table@.len() >= old(self).flushthresh ==> final(self).objs@ == (
            old(self).objs@ + table@).take(old(self).size as int) && flushed@ == (old(self).objs@
                + table@).skip(old(self).size as int),
            final(self).len == final(self).objs@.len(),
    {
        proof {
            lemma_cache_put_threshold(self@, table@);
        }
        let ghost pre = self@;
        let n = table.len();
        let mut i: usize = 0;
        while i < n
            invariant
                n == table@.len(),
                i <= n,
                n <= RTE_MEMPOOL_CACHE_MAX_SIZE,
                self.len == pre.objs.len() + i,
                self.objs@ == pre.objs + table@.take(i as int),
                self.size == pre.size,
                self.flushthresh == pre.flushthresh,
                pre.wf(),
            decreases n - i,
        {
            self.objs.push(table[i]);
            self.len = self.len + 1;
            i = i + 1;
        }
        assert(table@.take(n as int) =~= table@);
        let mut flushed: Vec<usize> = Vec::new();
        if self.len >= self.flushthresh {
            let len = self.len;
            let size = self.size;
            let mut j: u32 = size;
            while j < len
                invariant
                    size <= j <= len,
                    len == self.objs@.len(),
                    self.objs@ == pre.filled(table@),
                    flushed@ == pre.filled(table@).subrange(size as int, j as int),
                decreases len - j,
            {
                flushed.push(self.objs[j as usize]);
                j = j + 1;
            }
            self.objs.truncate(size as usize);
            self.len = size;
            assert(flushed@ =~= pre.filled(table@).skip(size as int));
            assert(self.objs@ =~= pre.filled(table@).take(size as int));
        }
        flushed
    }
}

/// The per-lcore caches of a mempool (`struct rte_mempool`): none when
/// the pool was created without a cache, one per lcore otherwise.
pub struct Mempool {
    pub local_cache: Vec<MempoolCache>,
}

/// The pool type under its DPDK name.
#[allow(non_camel_case_types)]
pub type rte_mempool = Mempool;

impl Mempool {
    /// Every cache is well formed, and there is no cache or one per lcore.
    pub open spec fn wf(&self) -> bool {
        &&& (self.local_cache@.len() == 0 || self.local_cache@.len() == RTE_MAX_LCORE)
        &&& forall|i: int| 0 <= i < self.local_cache@.len() ==> #[trigger] self.local_cache@[i].wf()
    }

    /// The models of the caches.
    pub open spec fn caches(&self) -> Seq<CacheModel> {
        self.local_cache@.map_values(|c: MempoolCache| c@)
    }

    /// The cache a put from lcore `lcore_id` goes through, if any.
    pub open spec fn default_cache_spec(&self, lcore_id: u32) -> Option<u32> {
        cache_index(self.caches(), lcore_id)
    }
}

/// The cache, among `caches`, of lcore `lcore_id`: none when the pool has
/// no cache or the id is not an lcore's (such as `LCORE_ID_ANY`).
pub open spec fn cache_index(caches: Seq<CacheModel>, lcore_id: u32) -> Option<u32> {
    if caches.len() == 0 || lcore_id >= RTE_MAX_LCORE {
        None
    } else {
        Some(lcore_id)
    }
}

/// The objects a put of `table` through `cache` hands to the backend.
pub open spec fn put_flushed(caches: Seq<CacheModel>, table: Seq<usize>, cache: Option<u32>) -> Seq<
    usize,
> {
    match cache {
        Some(c) if table.len() <= RTE_MEMPOOL_CACHE_MAX_SIZE => caches[c as int].flushed(table),
        _ => table,
    }
}

/// The caches after a put of `table` through `cache`.
pub open spec fn put_caches(caches: Seq<CacheModel>, table: Seq<usize>, cache: Option<u32>) -> Seq<
    CacheModel,
> {
    match cache {
        Some(c) if table.len() <= RTE_MEMPOOL_CACHE_MAX_SIZE => caches.update(
            c as int,
            caches[c as int].put(table),
        ),
        _ => caches,
    }
}

/// The cache of lcore `lcore_id` in `mp`, or `None` when the pool has no
/// cache or `lcore_id` is not an lcore id.
pub fn default_cache(mp: &Mempool, lcore_id: u32) -> (r: Option<u32>)
    requires
        mp.wf(),
    ensures
        r == mp.default_cache_spec(lcore_id),
        r matches Some(c) ==> c < mp.local_cache@.len(),
{
    if mp.local_cache.len() == 0 || lcore_id >= RTE_MAX_LCORE {
        None
    } else {
        Some(lcore_id)
    }
}

/// Puts the objects of `table` into the pool: through `cache` when there is
/// one and the table holds at most `RTE_MEMPOOL_CACHE_MAX_SIZE` objects,
/// straight to the backend otherwise. Returns the objects to enqueue to the
/// backend.
pub fn generic_put(mp: &mut Mempool, table: &[usize], cache: Option<u32>) -> (flushed: Vec<usize>)
    requires
        old(mp).wf(),
        cache matches Some(c) ==> c < old(mp).local_cache@.len(),
    ensures
        final(mp).wf(),
        final(mp).local_cache@.len() == old(mp).local_cache@.len(),
        final(mp).caches() == put_caches(old(mp).caches(), table@, cache),
        flushed@ == put_flushed(old(mp).caches(), table@, cache),
{
    let ghost pre = mp.caches();
    match cache {
        Some(c) => {
            if table.len() <= RTE_MEMPOOL_CACHE_MAX_SIZE as usize {
                assert(mp.local_cache@[c as int].wf());
                let flushed = mp.local_cache[c as usize].put(table);
                assert forall|i: int| 0 <= i < mp.local_cache@.len() implies #[trigger] mp.local_cache@[i].wf() by {}
                assert(mp.caches() =~= pre.update(c as int, pre[c as int].put(table@)));
                return flushed;
            }
        },
        None => {},
    }
    let mut out: Vec<usize> = Vec::new();
    let mut i: usize = 0;
    while i < table.len()
        invariant
            i <= table@.len(),
            out@ == table@.take(i as int),
        decreases table@.len() - i,
    {
        out.push(table[i]);
        i = i + 1;
    }
    assert(out@ =~= table@);
    out
}

/// Puts the objects of `table` into the pool from lcore `lcore_id`, through
/// that lcore's cache. Returns the objects to enqueue to the backend.
pub fn put_bulk(mp: &mut Mempool, lcore_id: u32, table: &[usize]) -> (flushed: Vec<usize>)
    requires
        old(mp).wf(),
    ensures
        final(mp).wf(),
        final(mp).local_cache@.len() == old(mp).local_cache@.len(),
        final(mp).caches() == put_caches(
            old(mp).caches(),
            table@,
            old(mp).default_cache_spec(lcore_id),
        ),
        flushed@ == put_flushed(old(mp).caches(), table@, old(mp).default_cache_spec(lcore_id)),
        old(mp).local_cache@.len() > 0 && lcore_id < 128 && table@.len() <= 512 ==> final(mp).caches() == old(mp).caches().update(
            lcore_id as int,
            old(mp).caches()[lcore_id as int].put(table@),
        ) && flushed@ == old(mp).caches()[lcore_id as int].flushed(table@),
        old(mp).local_cache@.len() == 0 || lcore_id >= 128 || table@.len() > 512 ==> final(mp).caches() == old(mp).caches() && flushed@ == table@,
{
    proof {
        lemma_put_routes(mp.caches(), table@, lcore_id);
    }
    let cache = default_cache(mp, lcore_id);
    generic_put(mp, table, cache)
}

/// Puts one object into the pool from lcore `lcore_id`. Returns the
/// objects to enqueue to the backend.
pub fn put(mp: &mut Mempool, lcore_id: u32, obj: usize) -> (flushed: Vec<usize>)
    requires
        old(mp).wf(),
    ensures
        final(mp).wf(),
        final(mp).local_cache@.len() == old(mp).local_cache@.len(),
        final(mp).caches() == put_caches(
            old(mp).caches(),
            seq![obj],
            old(mp).default_cache_spec(lcore_id),
        ),
        flushed@ == put_flushed(old(mp).caches(), seq![obj], old(mp).default_cache_spec(lcore_id)),
        old(mp).local_cache@.len() > 0 && lcore_id < 128 ==> final(mp).caches() == old(mp).caches().update(lcore_id as int, old(mp).caches()[lcore_id as int].put(seq![obj]))
            && flushed@ == old(mp).caches()[lcore_id as int].flushed(seq![obj]),
        old(mp).local_cache@.len() == 0 || lcore_id >= 128 ==> final(mp).caches() == old(mp).caches() && flushed@ == seq![obj],
{
    proof {
        lemma_put_routes(mp.caches(), seq![obj], lcore_id);
    }
    let table: Vec<usize> = vec![obj];
    assert(table@ =~= seq![obj]);
    put_bulk(mp, lcore_id, table.as_slice())
}

} // verus!
