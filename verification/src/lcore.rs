//! Logical-core queries of `rte_lcore.h`, over a snapshot of the EAL
//! configuration.
use vstd::prelude::*;

verus! {

/// Number of logical-core slots in the EAL configuration (`RTE_MAX_LCORE`).
pub const RTE_MAX_LCORE: u32 = 128;

/// The role of a logical core (`rte_lcore_role_t`).
pub enum LcoreRole {
    /// The core runs EAL threads (`ROLE_RTE`).
    Rte,
    /// The core is not used (`ROLE_OFF`).
    Off,
    /// The core runs service functions (`ROLE_SERVICE`).
    Service,
}

/// The part of `struct rte_config` that the lcore queries read.
pub struct EalConfig {
    pub master_lcore: u32,
    pub lcore_count: u32,
    pub lcore_role: Vec<LcoreRole>,
}

impl EalConfig {
    /// One role per lcore slot.
    pub open spec fn wf(&self) -> bool {
        self.lcore_role@.len() == RTE_MAX_LCORE
    }

    /// Lcore `id` exists and has the EAL role.
    pub open spec fn enabled(&self, id: int) -> bool {
        &&& 0 <= id < RTE_MAX_LCORE
        &&& self.lcore_role@[id] is Rte
    }

    /// Lcore `id` is one the search stops at: enabled, and not the master
    /// when the master is to be skipped.
    pub open spec fn qualifies(&self, id: int, skip_master: bool) -> bool {
        self.enabled(id) && !(skip_master && id == self.master_lcore)
    }

    /// The first lcore from `from` on (upwards, no wrapping) that the search
    /// stops at; `from` itself when it is `RTE_MAX_LCORE` or beyond, and
    /// `RTE_MAX_LCORE` when there is none below it.
    pub open spec fn scan(&self, from: int, skip_master: bool) -> int
        decreases RTE_MAX_LCORE - from,
    {
        if from >= RTE_MAX_LCORE || self.qualifies(from, skip_master) {
            from
        } else {
            self.scan(from + 1, skip_master)
        }
    }

    /// The first lcore the search stops at, going round from `start` (below
    /// `RTE_MAX_LCORE`) after `t` steps.
    pub open spec fn scan_wrap(&self, start: int, t: int, skip_master: bool) -> int
        decreases RTE_MAX_LCORE - t,
    {
        if t >= RTE_MAX_LCORE {
            RTE_MAX_LCORE as int
        } else if self.qualifies((start + t) % (RTE_MAX_LCORE as int), skip_master) {
            (start + t) % (RTE_MAX_LCORE as int)
        } else {
            self.scan_wrap(start, t + 1, skip_master)
        }
    }

    /// Some lcore is one the search stops at.
    pub open spec fn some_qualifies(&self, skip_master: bool) -> bool {
        exists|j: int| 0 <= j < RTE_MAX_LCORE && self.qualifies(j, skip_master)
    }

    /// The lcore `get_first` answers: the first enabled lcore (skipping the
    /// master when asked), or `RTE_MAX_LCORE`.
    pub open spec fn first_spec(&self, skip_master: bool) -> int {
        self.scan(0, skip_master)
    }

    /// Where the search of `get_next` starts: `prev + 1` modulo 2^32, then
    /// modulo `RTE_MAX_LCORE` when wrapping.
    pub open spec fn next_start(prev: int, wrap: bool) -> int {
        let s = if prev + 1 == 0x1_0000_0000 {
            0
        } else {
            prev + 1
        };
        if wrap {
            s % (RTE_MAX_LCORE as int)
        } else {
            s
        }
    }

    /// The lcore `get_next` answers: the first enabled lcore after `prev`
    /// (skipping the master when asked), going round when wrapping; without
    /// wrapping, `RTE_MAX_LCORE` when there is none.
    pub open spec fn next_spec(&self, prev: int, skip_master: bool, wrap: bool) -> int {
        let s = Self::next_start(prev, wrap);
        if wrap {
            self.scan_wrap(s, 0, skip_master)
        } else {
            self.scan(s, skip_master)
        }
    }

    /// The lcores the search stops at from `from` on, in increasing order.
    pub open spec fn enum_from(&self, from: int, skip_master: bool) -> Seq<int>
        decreases RTE_MAX_LCORE - from,
    {
        if from >= RTE_MAX_LCORE {
            Seq::empty()
        } else if self.qualifies(from, skip_master) {
            seq![from] + self.enum_from(from + 1, skip_master)
        } else {
            self.enum_from(from + 1, skip_master)
        }
    }
}

/// `scan(from)` is the least lcore at or after `from` that the search stops
/// at, or `RTE_MAX_LCORE`.
pub proof fn lemma_scan(cfg: &EalConfig, from: int, skip_master: bool)
    requires
        0 <= from <= RTE_MAX_LCORE,
    ensures
        from <= cfg.scan(from, skip_master) <= RTE_MAX_LCORE,
        cfg.scan(from, skip_master) < RTE_MAX_LCORE ==> cfg.qualifies(
            cfg.scan(from, skip_master),
            skip_master,
        ),
        forall|j: int| from <= j < cfg.scan(from, skip_master) ==> !cfg.qualifies(j, skip_master),
    decreases RTE_MAX_LCORE - from,
{
    if from < RTE_MAX_LCORE && !cfg.qualifies(from, skip_master) {
        lemma_scan(cfg, from + 1, skip_master);
    }
}

/// The enumeration from `from` starts at `scan(from)` and goes on from the
/// lcore after it: calling `get_first` and then `get_next` (without
/// wrapping) until `RTE_MAX_LCORE` visits exactly `enum_from(0)`.
pub proof fn lemma_enumeration_step(cfg: &EalConfig, from: int, skip_master: bool)
    requires
        0 <= from <= RTE_MAX_LCORE,
    ensures
        cfg.enum_from(from, skip_master) == if cfg.scan(from, skip_master) < RTE_MAX_LCORE {
            seq![cfg.scan(from, skip_master)] + cfg.enum_from(
                cfg.scan(from, skip_master) + 1,
                skip_master,
            )
        } else {
            Seq::<int>::empty()
        },
    decreases RTE_MAX_LCORE - from,
{
    if from < RTE_MAX_LCORE && !cfg.qualifies(from, skip_master) {
        lemma_enumeration_step(cfg, from + 1, skip_master);
    }
}

/// The enumeration from `from` lists, in strictly increasing order, exactly
/// the lcores at or after `from` that are enabled (and not the master when
/// it is skipped).
pub proof fn lemma_enumeration(cfg: &EalConfig, from: int, skip_master: bool)
    requires
        0 <= from <= RTE_MAX_LCORE,
    ensures
        forall|j: int|
            #![trigger cfg.enum_from(from, skip_master).contains(j)]
            #![trigger cfg.qualifies(j, skip_master)]
            cfg.enum_from(from, skip_master).contains(j) <==> (from <= j < RTE_MAX_LCORE
                && cfg.qualifies(j, skip_master)),
        forall|a: int, b: int|
            0 <= a < b < cfg.enum_from(from, skip_master).len() ==> #[trigger] cfg.enum_from(
                from,
                skip_master,
            )[a] < #[trigger] cfg.enum_from(from, skip_master)[b],
    decreases RTE_MAX_LCORE - from,
{
    if from < RTE_MAX_LCORE {
        lemma_enumeration(cfg, from + 1, skip_master);
        let rest = cfg.enum_from(from + 1, skip_master);
        if cfg.qualifies(from, skip_master) {
            let l = seq![from] + rest;
            assert(l.len() == rest.len() + 1);
            assert forall|j: int| l.contains(j) implies (from <= j < RTE_MAX_LCORE && cfg.qualifies(
                j,
                skip_master,
            )) by {
                let w = choose|w: int| 0 <= w < l.len() && l[w] == j;
                if w > 0 {
                    assert(rest[w - 1] == j);
                    assert(rest.contains(j));
                }
            }
            assert forall|j: int| (from <= j < RTE_MAX_LCORE && cfg.qualifies(j, skip_master)) implies l.contains(j) by {
                if j == from {
                    assert(l[0] == from);
                } else {
                    assert(rest.contains(j));
                    let w = choose|w: int| 0 <= w < rest.len() && rest[w] == j;
                    assert(l[w + 1] == j);
                }
            }
            assert forall|a: int, b: int| 0 <= a < b < l.len() implies l[a] < l[b] by {
                if a == 0 {
                    assert(l[b] == rest[b - 1]);
                    assert(rest.contains(rest[b - 1]));
                } else {
                    assert(l[a] == rest[a - 1]);
                    assert(l[b] == rest[b - 1]);
                }
            }
        }
    }
}

/// Lcore enumeration: `get_first` answers the first lcore of
/// `enum_from(0)`, and `get_next` (without wrapping) from an lcore `prev`
/// answers the first of `enum_from(prev + 1)`; each answers
/// `RTE_MAX_LCORE` when that list is empty. So `get_first` followed by
/// `get_next` until `RTE_MAX_LCORE` visits the enabled lcores (less the
/// master when it is skipped) once each, in increasing order
/// (`lemma_enumeration`).
pub proof fn lemma_first_next_enumerate(cfg: &EalConfig, prev: int, skip_master: bool)
    requires
        0 <= prev < RTE_MAX_LCORE,
    ensures
        cfg.enum_from(0, skip_master) == if cfg.first_spec(skip_master) < RTE_MAX_LCORE {
            seq![cfg.first_spec(skip_master)] + cfg.enum_from(cfg.first_spec(skip_master) + 1, skip_master)
        } else {
            Seq::<int>::empty()
        },
        cfg.enum_from(prev + 1, skip_master) == if cfg.next_spec(prev, skip_master, false)
            < RTE_MAX_LCORE {
            seq![cfg.next_spec(prev, skip_master, false)] + cfg.enum_from(
                cfg.next_spec(prev, skip_master, false) + 1,
                skip_master,
            )
        } else {
            Seq::<int>::empty()
        },
{
    lemma_enumeration_step(cfg, 0, skip_master);
    lemma_enumeration_step(cfg, prev + 1, skip_master);
}

/// The lcore `u` steps round from `start`.
pub open spec fn round_index(start: int, u: int) -> int {
    (start + u) % (RTE_MAX_LCORE as int)
}

/// Stepping `u` lcores round from `start` and measuring the distance back
/// gives `u`.
proof fn lemma_round(start: int, u: int)
    requires
        0 <= start < RTE_MAX_LCORE,
        0 <= u < RTE_MAX_LCORE,
    ensures
        0 <= round_index(start, u) < RTE_MAX_LCORE,
        (round_index(start, u) - start) % (RTE_MAX_LCORE as int) == u,
{
    let m = RTE_MAX_LCORE as int;
    if start + u < m {
        vstd::arithmetic::div_mod::lemma_small_mod((start + u) as nat, m as nat);
        vstd::arithmetic::div_mod::lemma_small_mod(u as nat, m as nat);
    } else {
        vstd::arithmetic::div_mod::lemma_mod_sub_multiples_vanish(start + u, m);
        vstd::arithmetic::div_mod::lemma_small_mod((start + u - m) as nat, m as nat);
        vstd::arithmetic::div_mod::lemma_mod_sub_multiples_vanish(u, m);
        vstd::arithmetic::div_mod::lemma_small_mod(u as nat, m as nat);
        assert(start + u - m - start == -m + u);
    }
}

/// Lcore `j` is `(j - start) % RTE_MAX_LCORE` steps round from `start`.
proof fn lemma_round_back(start: int, j: int)
    requires
        0 <= start < RTE_MAX_LCORE,
        0 <= j < RTE_MAX_LCORE,
    ensures
        0 <= (j - start) % (RTE_MAX_LCORE as int) < RTE_MAX_LCORE,
        round_index(start, (j - start) % (RTE_MAX_LCORE as int)) == j,
{
    let m = RTE_MAX_LCORE as int;
    if j >= start {
        vstd::arithmetic::div_mod::lemma_small_mod((j - start) as nat, m as nat);
        vstd::arithmetic::div_mod::lemma_small_mod(j as nat, m as nat);
    } else {
        vstd::arithmetic::div_mod::lemma_mod_add_multiples_vanish(j - start, m);
        vstd::arithmetic::div_mod::lemma_small_mod((j - start + m) as nat, m as nat);
        vstd::arithmetic::div_mod::lemma_mod_sub_multiples_vanish(j + m, m);
        vstd::arithmetic::div_mod::lemma_small_mod(j as nat, m as nat);
        assert(start + (j - start + m) == j + m);
    }
}

/// The wrapping search from `start`, having passed over `t` lcores, stops
/// at the first lcore round from `start` that qualifies.
proof fn lemma_scan_wrap(cfg: &EalConfig, start: int, t: int, skip_master: bool) -> (w: int)
    requires
        cfg.some_qualifies(skip_master),
        0 <= start < RTE_MAX_LCORE,
        0 <= t <= RTE_MAX_LCORE,
        forall|u: int| 0 <= u < t ==> !cfg.qualifies(#[trigger] round_index(start, u), skip_master),
    ensures
        t <= w < RTE_MAX_LCORE,
        cfg.scan_wrap(start, t, skip_master) == round_index(start, w),
        cfg.qualifies(round_index(start, w), skip_master),
        forall|u: int| 0 <= u < w ==> !cfg.qualifies(#[trigger] round_index(start, u), skip_master),
    decreases RTE_MAX_LCORE - t,
{
    if t == RTE_MAX_LCORE {
        let j = choose|j: int| 0 <= j < RTE_MAX_LCORE && cfg.qualifies(j, skip_master);
        lemma_round_back(start, j);
        let u = (j - start) % (RTE_MAX_LCORE as int);
        assert(!cfg.qualifies(round_index(start, u), skip_master));
        assert(false);
        t
    } else if cfg.qualifies(round_index(start, t), skip_master) {
        t
    } else {
        lemma_scan_wrap(cfg, start, t + 1, skip_master)
    }
}

/// Wrapping `get_next`: the answer is the first lcore, going round from
/// `prev + 1`, that has the EAL role (and is not the master when
/// `skip_master`): every lcore met before it going round lacks the role
/// or is the skipped master.
pub proof fn lemma_next_wrap(cfg: &EalConfig, prev: int, skip_master: bool)
    requires
        0 <= prev <= u32::MAX,
        cfg.wf(),
        cfg.some_qualifies(skip_master),
    ensures
        ({
            let r = cfg.next_spec(prev, skip_master, true);
            let s = (prev + 1) % 128;
            &&& 0 <= r < 128
            &&& cfg.lcore_role@[r] is Rte
            &&& !(skip_master && r == cfg.master_lcore)
            &&& forall|j: int|
                0 <= j < 128 && (j - s) % 128 < (r - s) % 128 ==> !(#[trigger] cfg.lcore_role@[j] is Rte
                    && !(skip_master && j == cfg.master_lcore))
        }),
{
    let m = RTE_MAX_LCORE as int;
    let start = EalConfig::next_start(prev, true);
    let s = (prev + 1) % 128;
    if prev + 1 == 0x1_0000_0000 {
        vstd::arithmetic::div_mod::lemma_small_mod(0, m as nat);
        assert(0x1_0000_0000int % 128 == 0);
    }
    assert(start == s);
    let w = lemma_scan_wrap(cfg, start, 0, skip_master);
    let r = round_index(start, w);
    lemma_round(start, w);
    assert forall|j: int|
        0 <= j < 128 && (j - s) % 128 < (r - s) % 128 implies !(#[trigger] cfg.lcore_role@[j] is Rte
            && !(skip_master && j == cfg.master_lcore)) by {
        lemma_round_back(start, j);
        let u = (j - start) % m;
        assert(!cfg.qualifies(round_index(start, u), skip_master));
    }
}

/// The helper of the searches: lcore `i` is passed over.
fn passed_over(cfg: &EalConfig, i: u32, skip_master: bool) -> (r: bool)
    requires
        cfg.wf(),
    ensures
        r == !cfg.qualifies(i as int, skip_master),
{
    is_enabled(cfg, i) == false || (skip_master == true && i == get_master(cfg))
}

/// Number of lcores the EAL runs on.
pub fn count(cfg: &EalConfig) -> (r: u32)
    ensures
        r == cfg.lcore_count,
{
    cfg.lcore_count
}

/// Id of the master lcore.
pub fn get_master(cfg: &EalConfig) -> (r: u32)
    ensures
        r == cfg.master_lcore,
{
    cfg.master_lcore
}

/// Whether lcore `lcore_id` exists and has the EAL role.
pub fn is_enabled(cfg: &EalConfig, lcore_id: u32) -> (r: bool)
    requires
        cfg.wf(),
    ensures
        r == cfg.enabled(lcore_id as int),
{
    if lcore_id >= RTE_MAX_LCORE {
        return false;
    }
    let role = &cfg.lcore_role[lcore_id as usize];
    matches!(role, LcoreRole::Rte)
}

/// Searches upwards from `start` for the first lcore that is enabled (and
/// not the master when `skip_master`).
fn scan_up(cfg: &EalConfig, start: u32, skip_master: bool) -> (r: u32)
    requires
        cfg.wf(),
    ensures
        r == cfg.scan(start as int, skip_master),
{
    let mut i = start;
    while i < RTE_MAX_LCORE && passed_over(cfg, i, skip_master)
        invariant
            cfg.wf(),
            start <= i,
            cfg.scan(i as int, skip_master) == cfg.scan(start as int, skip_master),
        decreases RTE_MAX_LCORE - i,
    {
        i += 1;
    }
    i
}

/// The first lcore that is enabled (and not the master when
/// `skip_master`), or `RTE_MAX_LCORE` when there is none.
pub fn get_first(cfg: &EalConfig, skip_master: bool) -> (r: u32)
    requires
        cfg.wf(),
    ensures
        r == cfg.first_spec(skip_master),
        r <= RTE_MAX_LCORE,
        r < RTE_MAX_LCORE ==> cfg.qualifies(r as int, skip_master),
        forall|j: int| 0 <= j < r ==> !cfg.qualifies(j, skip_master),
        r < 128 ==> cfg.lcore_role@[r as int] is Rte && !(skip_master && r == cfg.master_lcore),
        forall|j: int|
            0 <= j < r ==> !(#[trigger] cfg.lcore_role@[j] is Rte && !(skip_master && j
                == cfg.master_lcore)),
{
    proof {
        lemma_scan(cfg, 0, skip_master);
    }
    let r = scan_up(cfg, 0, skip_master);
    assert forall|j: int| 0 <= j < r implies !(#[trigger] cfg.lcore_role@[j] is Rte && !(skip_master
        && j == cfg.master_lcore)) by {
        assert(!cfg.qualifies(j, skip_master));
    }
    r
}

/// The next lcore after `prev` that is enabled (and not the master when
/// `skip_master`). Without wrapping the search goes up to
/// `RTE_MAX_LCORE`, which it answers when it finds none; with wrapping it
/// goes round from lcore 0, and some lcore must qualify (otherwise the
/// search never ends).
pub fn get_next(cfg: &EalConfig, prev: u32, skip_master: bool, wrap: bool) -> (r: u32)
    requires
        cfg.wf(),
        wrap ==> cfg.some_qualifies(skip_master),
    ensures
        r == cfg.next_spec(prev as int, skip_master, wrap),
        wrap ==> r < RTE_MAX_LCORE && cfg.qualifies(r as int, skip_master),
        wrap ==> cfg.lcore_role@[r as int] is Rte && !(skip_master && r == cfg.master_lcore)
            && forall|j: int|
            0 <= j < 128 && (j - (prev + 1) % 128) % 128 < (r - (prev + 1) % 128) % 128 ==> !(
            #[trigger] cfg.lcore_role@[j] is Rte && !(skip_master && j == cfg.master_lcore)),
        !wrap && prev < RTE_MAX_LCORE ==> prev < r <= RTE_MAX_LCORE && (r < RTE_MAX_LCORE
            ==> cfg.qualifies(r as int, skip_master)) && forall|j: int|
            prev < j < r ==> !cfg.qualifies(j, skip_master),
        !wrap && (prev + 1) % 0x1_0000_0000 >= 128 ==> r == (prev + 1) % 0x1_0000_0000,
        !wrap && (prev + 1) % 0x1_0000_0000 < 128 ==> (prev + 1) % 0x1_0000_0000 <= r <= 128 && (r
            < 128 ==> cfg.lcore_role@[r as int] is Rte && !(skip_master && r == cfg.master_lcore))
            && forall|j: int|
            (prev + 1) % 0x1_0000_0000 <= j < r ==> !(#[trigger] cfg.lcore_role@[j] is Rte && !(
            skip_master && j == cfg.master_lcore)),
{
    let mut i = prev.wrapping_add(1);
    if !wrap {
        proof {
            if prev < RTE_MAX_LCORE {
                lemma_scan(cfg, prev + 1, skip_master);
            }
            let s = (prev + 1) % 0x1_0000_0000;
            if prev + 1 == 0x1_0000_0000 {
                assert(s == 0);
            } else {
                vstd::arithmetic::div_mod::lemma_small_mod((prev + 1) as nat, 0x1_0000_0000);
            }
            assert(i == s);
            if s < 128 {
                lemma_scan(cfg, s, skip_master);
            }
        }
        let r = scan_up(cfg, i, skip_master);
        proof {
            let s = (prev + 1) % 0x1_0000_0000;
            if s < 128 {
                assert forall|j: int| s <= j < r implies !(#[trigger] cfg.lcore_role@[j] is Rte && !(
                    skip_master && j == cfg.master_lcore)) by {
                    assert(!cfg.qualifies(j, skip_master));
                }
            }
        }
        return r;
    }
    proof {
        lemma_next_wrap(cfg, prev as int, skip_master);
    }
    i %= RTE_MAX_LCORE;
    let ghost start = i as int;
    let ghost mut t: int = 0;
    let ghost m = RTE_MAX_LCORE as int;
    proof {
        vstd::arithmetic::div_mod::lemma_small_mod(start as nat, m as nat);
    }
    while passed_over(cfg, i, skip_master)
        invariant
            cfg.wf(),
            cfg.some_qualifies(skip_master),
            m == RTE_MAX_LCORE,
            0 <= start < m,
            0 <= t < m,
            i < RTE_MAX_LCORE,
            i == (start + t) % m,
            cfg.scan_wrap(start, t, skip_master) == cfg.scan_wrap(start, 0, skip_master),
            forall|u: int| 0 <= u < t ==> !cfg.qualifies(#[trigger] round_index(start, u), skip_master),
        decreases m - t,
    {
        proof {
            vstd::arithmetic::div_mod::lemma_add_mod_noop(start + t, 1, m);
            vstd::arithmetic::div_mod::lemma_small_mod(1, m as nat);
            vstd::arithmetic::div_mod::lemma_mod_twice(start + t, m);
            if t + 1 == m {
                let j = choose|j: int| 0 <= j < m && cfg.qualifies(j, skip_master);
                let u = if j >= start {
                    j - start
                } else {
                    j - start + m
                };
                if j >= start {
                    vstd::arithmetic::div_mod::lemma_small_mod(j as nat, m as nat);
                } else {
                    vstd::arithmetic::div_mod::lemma_mod_sub_multiples_vanish(j + m, m);
                    vstd::arithmetic::div_mod::lemma_small_mod(j as nat, m as nat);
                }
                assert(round_index(start, u) == j);
                assert(false);
            }
        }
        i = (i + 1) % RTE_MAX_LCORE;
        proof {
            t = t + 1;
        }
    }
    i
}

} // verus!
