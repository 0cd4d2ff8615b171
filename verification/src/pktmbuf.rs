//! Freeing packet mbufs and mbuf chains (`rte_pktmbuf_free` and its
//! helpers of `rte_mbuf.h`).
//!
//! The mbufs are held in a table indexed by handle; a chain is followed
//! through the `next` handles of its segments.
use vstd::prelude::*;
use crate::atomic::sub16_return;
use crate::mbuf::{Mbuf, pools_view, pools_wf};
use crate::mempool::{CacheModel, Mempool, cache_index, put_caches, put_flushed};

verus! {

/// A segment after `prefree_seg`: with a count of one it is cut from the
/// rest of its chain (when it had a next segment; detaching an indirect
/// segment leaves it as it is); otherwise its count drops by one, modulo
/// 2^16.
pub open spec fn prefree_spec(b: Mbuf) -> Mbuf {
    if b.refcnt_spec() == 1 {
        if b.next is Some {
            Mbuf { next: None, nb_segs: 1, ..b }
        } else {
            b
        }
    } else {
        Mbuf {
            refcnt_atomic: crate::atomic::Atomic16 {
                cnt: ((b.refcnt_spec() - 1 + 0x1_0000) % 0x1_0000) as u16,
            },
            ..b
        }
    }
}

/// The state the free functions act on: the mbuf table, the cache models
/// of the pools, and the (pool, object) pairs handed to pool backends so
/// far.
pub ghost struct FreeState {
    pub mbufs: Seq<Mbuf>,
    pub pools: Seq<Seq<CacheModel>>,
    pub enqueued: Seq<(usize, usize)>,
}

/// Pairs each object of `objs` with pool `p`.
pub open spec fn tag_pool(p: usize, objs: Seq<usize>) -> Seq<(usize, usize)> {
    objs.map_values(|o: usize| (p, o))
}

/// `free_seg` of segment `m` from lcore `lcore_id`: the segment is
/// pre-freed, and when its count was one it goes back to its pool.
pub open spec fn free_seg_step(st: FreeState, m: usize, lcore_id: u32) -> FreeState {
    let b = st.mbufs[m as int];
    let mbufs = st.mbufs.update(m as int, prefree_spec(b));
    if b.refcnt_spec() == 1 {
        let caches = st.pools[b.pool as int];
        let cache = cache_index(caches, lcore_id);
        FreeState {
            mbufs,
            pools: st.pools.update(b.pool as int, put_caches(caches, seq![m], cache)),
            enqueued: st.enqueued + tag_pool(b.pool, put_flushed(caches, seq![m], cache)),
        }
    } else {
        FreeState { mbufs, ..st }
    }
}

/// `free_seg` applied to each segment of `path` in turn.
pub open spec fn free_path(st: FreeState, path: Seq<usize>, lcore_id: u32) -> FreeState
    decreases path.len(),
{
    if path.len() == 0 {
        st
    } else {
        free_seg_step(free_path(st, path.drop_last(), lcore_id), path.last(), lcore_id)
    }
}

/// `path` lists, without repetition, the segments of the chain that starts
/// at `m`: each segment's `next` is the following one, and the last one has
/// none. No segment for no mbuf.
pub open spec fn is_chain(mbufs: Seq<Mbuf>, m: Option<usize>, path: Seq<usize>) -> bool {
    &&& match m {
        None => path.len() == 0,
        Some(h) => path.len() > 0 && path[0] == h,
    }
    &&& forall|i: int| 0 <= i < path.len() ==> #[trigger] path[i] < mbufs.len()
    &&& forall|i: int, j: int| 0 <= i < j < path.len() ==> path[i] != path[j]
    &&& forall|i: int|
        0 <= i < path.len() ==> #[trigger] mbufs[path[i] as int].next == if i + 1 < path.len() {
            Some(path[i + 1])
        } else {
            None
        }
}

/// The chain from `m` ends, and each of its segments belongs to one of the
/// `npools` pools.
pub open spec fn chain_ok(mbufs: Seq<Mbuf>, npools: nat, m: Option<usize>) -> bool {
    &&& exists|path: Seq<usize>| is_chain(mbufs, m, path)
    &&& forall|path: Seq<usize>, i: int|
        is_chain(mbufs, m, path) && 0 <= i < path.len() ==> mbufs[path[i] as int].pool < npools
}


/// A reference taken with `refcnt_update(1)` is given back by
/// `prefree_seg`: on an mbuf with a positive count, the two leave it as it
/// was.
pub proof fn lemma_take_then_prefree(b: Mbuf)
    requires
        1 <= b.refcnt_spec() < u16::MAX,
    ensures
        prefree_spec(
            Mbuf { refcnt_atomic: crate::atomic::Atomic16 { cnt: (b.refcnt_spec() + 1) as u16 }, ..b },
        ) == b,
{
}

/// Freeing the segments of `path` touches no other mbuf and keeps the
/// table's length.
pub proof fn lemma_free_path_frame(st: FreeState, path: Seq<usize>, lcore_id: u32, x: int)
    requires
        0 <= x < st.mbufs.len(),
        !path.contains(x as usize),
        forall|i: int| 0 <= i < path.len() ==> #[trigger] path[i] < st.mbufs.len(),
    ensures
        free_path(st, path, lcore_id).mbufs.len() == st.mbufs.len(),
        free_path(st, path, lcore_id).mbufs[x] == st.mbufs[x],
    decreases path.len(),
{
    if path.len() > 0 {
        if path.drop_last().contains(x as usize) {
            let k = choose|k: int| 0 <= k < path.len() - 1 && path.drop_last()[k] == x as usize;
            assert(path[k] == x as usize);
        }
        if path.last() == x as usize {
            assert(path[path.len() - 1] == x as usize);
        }
        lemma_free_path_frame(st, path.drop_last(), lcore_id, x);
        assert(path[path.len() - 1] < st.mbufs.len());
    }
}

/// Where `free_seg` of segment `m` from lcore `lcore_id` sends the segment:
/// with a count of one, into the cache of that lcore when its pool has
/// caches and the id is an lcore's (every lcore, 0 included), otherwise
/// straight to the pool's backend; with another count, nowhere. No other
/// pool changes.
pub proof fn lemma_free_seg_routes(st: FreeState, m: usize, lcore_id: u32)
    requires
        m < st.mbufs.len(),
        st.mbufs[m as int].pool < st.pools.len(),
    ensures
        ({
            let b = st.mbufs[m as int];
            let p = b.pool as int;
            let c = st.pools[p];
            let post = free_seg_step(st, m, lcore_id);
            &&& post.mbufs.len() == st.mbufs.len()
            &&& post.pools.len() == st.pools.len()
            &&& forall|q: int| 0 <= q < st.pools.len() && q != p ==> #[trigger] post.pools[q] == st.pools[q]
            &&& (b.refcnt_spec() == 1 && c.len() > 0 && lcore_id < 128) ==> post.pools[p] == c.update(
                lcore_id as int,
                c[lcore_id as int].put(seq![m]),
            ) && post.enqueued == st.enqueued + c[lcore_id as int].flushed(seq![m]).map_values(
                |o: usize| (b.pool, o),
            )
            &&& (b.refcnt_spec() == 1 && (c.len() == 0 || lcore_id >= 128)) ==> post.pools[p] == c
                && post.enqueued == st.enqueued.push((b.pool, m))
            &&& b.refcnt_spec() != 1 ==> post.pools == st.pools && post.enqueued == st.enqueued
        }),
{
    let b = st.mbufs[m as int];
    crate::mempool::lemma_put_routes(st.pools[b.pool as int], seq![m], lcore_id);
    if b.refcnt_spec() == 1 && (st.pools[b.pool as int].len() == 0 || lcore_id >= 128) {
        assert(tag_pool(b.pool, seq![m]) =~= seq![(b.pool, m)]);
        assert(st.enqueued + tag_pool(b.pool, seq![m]) =~= st.enqueued.push((b.pool, m)));
    }
}

/// Prepares segment `m` for freeing: returns `Some(m)` when its count is
/// one (the segment is then cut from the rest of its chain), otherwise
/// drops its count by one and returns `None`.
pub fn prefree_seg(mbufs: &mut Vec<Mbuf>, m: usize) -> (r: Option<usize>)
    requires
        m < old(mbufs)@.len(),
    ensures
        final(mbufs)@ == old(mbufs)@.update(m as int, prefree_spec(old(mbufs)@[m as int])),
        r == if old(mbufs)@[m as int].refcnt_spec() == 1 {
            Some(m)
        } else {
            None::<usize>
        },
{
    if mbufs[m].refcnt() == 1 {
        if mbufs[m].indirect() == true {
            mbufs[m].detach();
        }
        if mbufs[m].next.is_some() {
            mbufs[m].next = None;
            mbufs[m].nb_segs = 1;
        }
        return Some(m);
    } else {
        let _ = sub16_return(&mut mbufs[m].refcnt_atomic, 1);
    }
    None
}

/// Frees segment `m` from lcore `lcore_id`: pre-frees it and, when its
/// count was one, puts it back into its pool. Returns the (pool, object)
/// pairs to enqueue to pool backends.
pub fn free_seg(mbufs: &mut Vec<Mbuf>, pools: &mut Vec<Mempool>, lcore_id: u32, m: usize) -> (r: Vec<
    (usize, usize),
>)
    requires
        m < old(mbufs)@.len(),
        old(mbufs)@[m as int].pool < old(pools)@.len(),
        pools_wf(old(pools)@),
    ensures
        pools_wf(final(pools)@),
        final(pools)@.len() == old(pools)@.len(),
        (FreeState {
            mbufs: final(mbufs)@,
            pools: pools_view(final(pools)@),
            enqueued: r@,
        }) == free_seg_step(
            FreeState { mbufs: old(mbufs)@, pools: pools_view(old(pools)@), enqueued: seq![] },
            m,
            lcore_id,
        ),
        ({
            let b = old(mbufs)@[m as int];
            let p = b.pool as int;
            let c = pools_view(old(pools)@)[p];
            &&& forall|q: int| 0 <= q < old(pools)@.len() && q != p ==> #[trigger] pools_view(
                final(pools)@,
            )[q] == pools_view(old(pools)@)[q]
            &&& (b.refcnt_spec() == 1 && c.len() > 0 && lcore_id < 128) ==> pools_view(
                final(pools)@,
            )[p] == c.update(lcore_id as int, c[lcore_id as int].put(seq![m])) && r@ == c[lcore_id as int].flushed(
                seq![m],
            ).map_values(|o: usize| (b.pool, o))
            &&& (b.refcnt_spec() == 1 && (c.len() == 0 || lcore_id >= 128)) ==> pools_view(
                final(pools)@,
            ) == pools_view(old(pools)@) && r@ == seq![(b.pool, m)]
            &&& b.refcnt_spec() != 1 ==> pools_view(final(pools)@) == pools_view(old(pools)@)
                && r@.len() == 0
        }),
{
    proof {
        lemma_free_seg_routes(
            FreeState { mbufs: mbufs@, pools: pools_view(pools@), enqueued: seq![] },
            m,
            lcore_id,
        );
        assert(seq![] + tag_pool(mbufs@[m as int].pool, seq![m]) =~= seq![(mbufs@[m as int].pool, m)]);
    }
    let ghost pre = FreeState { mbufs: mbufs@, pools: pools_view(pools@), enqueued: seq![] };
    let ghost want = free_seg_step(pre, m, lcore_id);
    let freed = prefree_seg(mbufs, m);
    let mut out: Vec<(usize, usize)> = Vec::new();
    match freed {
        Some(seg) => {
            let p = mbufs[seg].pool;
            let flushed = mbufs[seg].raw_free(seg, pools, lcore_id);
            let mut i: usize = 0;
            while i < flushed.len()
                invariant
                    i <= flushed@.len(),
                    out@ == tag_pool(p, flushed@.take(i as int)),
                decreases flushed@.len() - i,
            {
                out.push((p, flushed[i]));
                i = i + 1;
                assert(tag_pool(p, flushed@.take(i as int)) =~= tag_pool(
                    p,
                    flushed@.take((i - 1) as int),
                ).push((p, flushed@[i - 1])));
            }
            assert(flushed@.take(flushed@.len() as int) =~= flushed@);
            assert(out@ =~= want.enqueued);
            assert(pools_view(pools@) =~= want.pools);
        },
        None => {
            assert(pools_view(pools@) =~= want.pools);
        },
    }
    out
}

/// Frees the chain that starts at `m` (nothing when `m` is `None`) from
/// lcore `lcore_id`, segment by segment, following each segment's `next`
/// as it was before that segment is freed. Returns the (pool, object) pairs
/// to enqueue to pool backends.
pub fn free(mbufs: &mut Vec<Mbuf>, pools: &mut Vec<Mempool>, lcore_id: u32, m: Option<usize>) -> (r:
    Vec<(usize, usize)>)
    requires
        chain_ok(old(mbufs)@, old(pools)@.len(), m),
        pools_wf(old(pools)@),
    ensures
        pools_wf(final(pools)@),
        final(pools)@.len() == old(pools)@.len(),
        forall|path: Seq<usize>|
            is_chain(old(mbufs)@, m, path) ==> (FreeState {
                mbufs: final(mbufs)@,
                pools: pools_view(final(pools)@),
                enqueued: r@,
            }) == free_path(
                FreeState { mbufs: old(mbufs)@, pools: pools_view(old(pools)@), enqueued: seq![] },
                path,
                lcore_id,
            ),
{
    let ghost old_mbufs = mbufs@;
    let ghost npools = pools@.len();
    let ghost init = FreeState { mbufs: mbufs@, pools: pools_view(pools@), enqueued: seq![] };
    let ghost path = choose|path: Seq<usize>| is_chain(old_mbufs, m, path);
    let mut out: Vec<(usize, usize)> = Vec::new();
    let mut n = m;
    let ghost mut i: int = 0;
    while n.is_some()
        invariant
            is_chain(old_mbufs, m, path),
            chain_ok(old_mbufs, npools, m),
            0 <= i <= path.len(),
            n == if i < path.len() {
                Some(path[i])
            } else {
                None::<usize>
            },
            mbufs@.len() == old_mbufs.len(),
            forall|j: int| i <= j < path.len() ==> #[trigger] mbufs@[path[j] as int] == old_mbufs[path[j] as int],
            pools@.len() == npools,
            pools_wf(pools@),
            (FreeState { mbufs: mbufs@, pools: pools_view(pools@), enqueued: out@ }) == free_path(
                init,
                path.take(i),
                lcore_id,
            ),
        decreases path.len() - i,
    {
        let seg = n.unwrap();
        assert(mbufs@[path[i] as int] == old_mbufs[path[i] as int]);
        let m_next = mbufs[seg].next;
        let ghost before = FreeState { mbufs: mbufs@, pools: pools_view(pools@), enqueued: out@ };
        let mut part = free_seg(mbufs, pools, lcore_id, seg);
        let ghost part_seq = part@;
        out.append(&mut part);
        proof {
            let st = free_seg_step(
                FreeState { mbufs: before.mbufs, pools: before.pools, enqueued: seq![] },
                seg,
                lcore_id,
            );
            assert(path.take(i + 1).drop_last() =~= path.take(i));
            assert(path.take(i + 1).last() == seg);
            assert(before.enqueued + st.enqueued =~= out@);
            i = i + 1;
            assert forall|j: int| i <= j < path.len() implies #[trigger] mbufs@[path[j] as int]
                == old_mbufs[path[j] as int] by {
                assert(path[j] != path[i - 1]);
            }
        }
        n = m_next;
    }
    assert(path.take(path.len() as int) =~= path);
    proof {
        assert forall|p: Seq<usize>| is_chain(old_mbufs, m, p) implies p == path by {
            lemma_chain_unique(old_mbufs, m, p, path);
        }
    }
    out
}

/// The chain from an mbuf is determined by the table.
proof fn lemma_chain_unique(mbufs: Seq<Mbuf>, m: Option<usize>, p: Seq<usize>, q: Seq<usize>)
    requires
        is_chain(mbufs, m, p),
        is_chain(mbufs, m, q),
    ensures
        p == q,
{
    if p.len() > 0 && q.len() > 0 {
        let k = if p.len() < q.len() {
            p.len()
        } else {
            q.len()
        };
        assert forall|i: int| 0 <= i < k implies p[i] == q[i] by {
            lemma_chain_prefix(mbufs, m, p, q, i);
        }
        if p.len() < q.len() {
            assert(mbufs[p[k - 1] as int].next == None::<usize>);
            assert(mbufs[q[k - 1] as int].next == Some(q[k as int]));
        } else if q.len() < p.len() {
            assert(mbufs[q[k - 1] as int].next == None::<usize>);
            assert(mbufs[p[k - 1] as int].next == Some(p[k as int]));
        }
        assert(p =~= q);
    } else {
        assert(p =~= q);
    }
}

/// Two chains from the same mbuf agree on their common prefix.
proof fn lemma_chain_prefix(mbufs: Seq<Mbuf>, m: Option<usize>, p: Seq<usize>, q: Seq<usize>, i: int)
    requires
        is_chain(mbufs, m, p),
        is_chain(mbufs, m, q),
        0 <= i < p.len(),
        i < q.len(),
    ensures
        p[i] == q[i],
    decreases i,
{
    if i > 0 {
        lemma_chain_prefix(mbufs, m, p, q, i - 1);
        assert(mbufs[p[i - 1] as int].next == Some(p[i]));
        assert(mbufs[q[i - 1] as int].next == Some(q[i]));
    }
}

} // verus!
