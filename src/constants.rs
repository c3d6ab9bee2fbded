use vstd::prelude::*;

verus! {

/// Distance units that a signal crosses in one turn.
pub const LIGHTSPEED: u64 = 10;

} // verus!
