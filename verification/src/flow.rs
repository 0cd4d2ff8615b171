//! Flow rules (`rte_flow.h`): the isolated-mode switch.
use vstd::prelude::*;

verus! {

/// The integer that `rte_flow_isolate` takes for `set`: 1 to enter
/// isolated mode, 0 to leave it.
pub fn isolate_flag(set: bool) -> (r: i32)
    ensures
        r == if set {
            1i32
        } else {
            0i32
        },
{
    if set == true {
        1
    } else {
        0
    }
}

} // verus!
