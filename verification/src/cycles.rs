//! The time-stamp counter of `rte_cycles.h`: the reading itself is taken
//! by the caller; these functions assemble it.
use vstd::prelude::*;

verus! {

/// The counter value from the two halves that the `rdtsc` instruction
/// returns: `hi` in the upper 32 bits, `lo` in the lower 32 bits.
pub fn rdtsc_from_parts(hi: u32, lo: u32) -> (r: u64)
    ensures
        r == hi * 0x1_0000_0000 + lo,
{
    let r = (hi as u64) << 32 | lo as u64;
    assert(((hi as u64) << 32 | lo as u64) == hi * 0x1_0000_0000 + lo) by (bit_vector);
    r
}

/// The counter value on targets without a time-stamp counter, from a
/// monotonic clock reading of `sec` seconds and `nsec` nanoseconds: the
/// reading in nanoseconds, `sec * 10^9 + nsec`, modulo 2^64.
pub fn rdtsc_from_timespec(sec: u64, nsec: u64) -> (r: u64)
    ensures
        r == (sec * 1_000_000_000 + nsec) % 0x1_0000_0000_0000_0000,
{
    let s = sec.wrapping_mul(1_000_000_000u64);
    let r = s.wrapping_add(nsec);
    proof {
        let m = 0x1_0000_0000_0000_0000int;
        vstd::arithmetic::div_mod::lemma_add_mod_noop(sec * 1_000_000_000, nsec as int, m);
        vstd::arithmetic::div_mod::lemma_small_mod(nsec as nat, m as nat);
        vstd::arithmetic::div_mod::lemma_mod_twice(sec * 1_000_000_000 + nsec, m);
        let x = (sec * 1_000_000_000) % m;
        if x + nsec >= m {
            vstd::arithmetic::div_mod::lemma_mod_sub_multiples_vanish(x + nsec, m);
            vstd::arithmetic::div_mod::lemma_small_mod((x + nsec - m) as nat, m as nat);
        } else {
            vstd::arithmetic::div_mod::lemma_small_mod((x + nsec) as nat, m as nat);
        }
    }
    r
}

} // verus!
