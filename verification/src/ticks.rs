//! Time in this crate: the length of a tick, in nanoseconds, and runs of
//! ticks.

use vstd::prelude::*;

verus! {

/// The time that a run of ticks adds up to.
pub open spec fn total(deltas: Seq<u64>) -> nat
    decreases deltas.len(),
{
    if deltas.len() == 0 {
        0
    } else {
        total(deltas.drop_last()) + deltas.last() as nat
    }
}

} // verus!
