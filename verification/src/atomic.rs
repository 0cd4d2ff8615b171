//! The 16-bit atomic counter of `rte_atomic.h`.
//!
//! Exclusive access (`&mut`) stands in for the atomicity of the hardware
//! operation: every operation here is a single read-modify-write of `cnt`.
use vstd::prelude::*;

verus! {

/// A 16-bit counter, as `rte_atomic16_t`.
pub struct Atomic16 {
    pub cnt: u16,
}

/// The counter type under its DPDK name.
#[allow(non_camel_case_types)]
pub type rte_atomic16_t = Atomic16;

/// Stores `new_value` into the counter.
pub fn set16(v: &mut Atomic16, new_value: u16)
    ensures
        final(v).cnt == new_value,
{
    v.cnt = new_value;
}

/// Adds `inc` to the counter, modulo 2^16, and returns the new value.
pub fn add16_return(v: &mut Atomic16, inc: u16) -> (r: u16)
    ensures
        r == (old(v).cnt + inc) % 0x1_0000,
        final(v).cnt == r,
{
    v.cnt = v.cnt.wrapping_add(inc);
    v.cnt
}

/// Subtracts `dec` from the counter, modulo 2^16, and returns the new
/// value.
pub fn sub16_return(v: &mut Atomic16, dec: u16) -> (r: u16)
    ensures
        r == (old(v).cnt - dec + 0x1_0000) % 0x1_0000,
        final(v).cnt == r,
{
    v.cnt = v.cnt.wrapping_sub(dec);
    v.cnt
}

/// Adding then subtracting the same amount gives the counter back, across
/// the wrap at 2^16 too.
pub proof fn lemma_add_sub_roundtrip(c: u16, d: u16)
    ensures
        ((((c + d) % 0x1_0000) as u16) - d + 0x1_0000) % 0x1_0000 == c,
{
}

} // verus!
