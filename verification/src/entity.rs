//! Entities: 64-bit handles on rows of the world's storage.
use vstd::prelude::*;

verus! {

/// A row of the world, named by 64 bits that the bridge passes by value and
/// never interprets.
#[derive(Clone, Copy, Debug, PartialEq, Eq, Structural)]
pub struct Entity {
    pub bits: u64,
}

impl Entity {
    /// The entity named by `bits`.
    pub fn from_bits(bits: u64) -> (e: Self)
        ensures
            e.bits == bits,
    {
        Entity { bits }
    }

    /// The 64 bits that name this entity.
    pub fn to_bits(&self) -> (bits: u64)
        ensures
            bits == self.bits,
    {
        self.bits
    }
}

} // verus!
