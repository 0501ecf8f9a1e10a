use vstd::prelude::*;

verus! {

/// Number of slots that can have proposals pending: a replica may keep
/// proposals in flight for the slots `[slot_out, slot_out + WINDOW)`.
pub const WINDOW: u64 = 5;

} // verus!
