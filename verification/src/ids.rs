//! Object identities as plain values.
use vstd::prelude::*;

verus! {

/// A 160-bit object identity, held as three big-endian integer parts.
#[derive(Clone, Copy, Debug, PartialEq, Eq, Structural, Hash)]
pub struct ObjectId {
    pub high: u64,
    pub middle: u64,
    pub low: u32,
}

impl ObjectId {
    /// The identity whose low part is `n` and whose other parts are zero.
    pub fn from_low(n: u32) -> (id: ObjectId)
        ensures
            id.high == 0,
            id.middle == 0,
            id.low == n,
    {
        ObjectId { high: 0, middle: 0, low: n }
    }
}

} // verus!
