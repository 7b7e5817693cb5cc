//! The identifiers that messages carry.

use vstd::prelude::*;

verus! {

/// Which of the node's fabrics; zero stands for none.
#[derive(Debug, Clone, Copy, PartialEq, Eq, Structural)]
pub struct FabricIndex(pub u8);

/// A node on a fabric.
#[derive(Debug, Clone, Copy, PartialEq, Eq, Structural)]
pub struct NodeId(pub u64);

/// A group on a fabric; zero is the null group.
#[derive(Debug, Clone, Copy, PartialEq, Eq, Structural)]
pub struct GroupId(pub u16);

/// A vendor.
#[derive(Debug, Clone, Copy, PartialEq, Eq, Structural)]
pub struct VendorId(pub u16);

impl NodeId {
    /// Whether the identifier lies in the operational range, from `0x1` to `0xFFFF_FFEF_FFFF_FFFF`.
    pub open spec fn operational(self) -> bool {
        0x1 <= self.0 <= 0xFFFF_FFEF_FFFF_FFFF
    }

    /// Whether the identifier names an operational node.
    pub fn is_operational(self) -> (r: bool)
        ensures
            r == self.operational(),
    {
        0x1 <= self.0 && self.0 <= 0xFFFF_FFEF_FFFF_FFFF
    }
}

/// The identifier of the tag that marks a Joint Fabric's administrators.
pub const ADMINISTRATOR_CAT: u16 = 0xFFFF;

/// The identifier of the tag that marks a Joint Fabric's anchor.
pub const ANCHOR_CAT: u16 = 0xFFFE;

/// The first value of a message counter, from a random word: its low 28 bits, and one more.
pub fn initial_counter(randomness: u32) -> (counter: u32)
    ensures
        counter == randomness % 0x1000_0000 + 1,
{
    randomness % 0x1000_0000 + 1
}

} // verus!
