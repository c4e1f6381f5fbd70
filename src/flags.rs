use vstd::prelude::*;

verus! {

/// The half-close and empty-payload bits carried by every frame.
/// Bits outside the three named ones are kept as they arrived.
#[derive(Clone, Copy, Debug, PartialEq, Eq, Structural)]
pub struct Flags {
    pub bits: u8,
}

pub const REMOTE_CLOSED_BIT: u8 = 0x01;

pub const REMOTE_OPEN_BIT: u8 = 0x02;

pub const NO_DATA_BIT: u8 = 0x04;

impl Flags {
    /// The sender has nothing more to send on this stream.
    pub fn remote_closed() -> (r: Flags)
        ensures
            r.bits == REMOTE_CLOSED_BIT,
    {
        Flags { bits: REMOTE_CLOSED_BIT }
    }

    /// The sender keeps its side open and streams its input.
    pub fn remote_open() -> (r: Flags)
        ensures
            r.bits == REMOTE_OPEN_BIT,
    {
        Flags { bits: REMOTE_OPEN_BIT }
    }

    /// The frame carries no item.
    pub fn no_data() -> (r: Flags)
        ensures
            r.bits == NO_DATA_BIT,
    {
        Flags { bits: NO_DATA_BIT }
    }

    pub open spec fn spec_union(self, other: Flags) -> Flags {
        Flags { bits: self.bits | other.bits }
    }

    /// No bit set.
    pub fn empty() -> (r: Flags)
        ensures
            r.bits == 0,
    {
        Flags { bits: 0 }
    }

    /// Keeps every bit of `bits`, named or not.
    pub fn from_bits_retain(bits: u8) -> (r: Flags)
        ensures
            r.bits == bits,
    {
        Flags { bits }
    }

    pub fn bits(&self) -> (r: u8)
        ensures
            r == self.bits,
    {
        self.bits
    }

    pub fn is_empty(&self) -> (r: bool)
        ensures
            r == (self.bits == 0),
    {
        self.bits == 0
    }

    /// The bits set in either operand.
    pub fn union(self, other: Flags) -> (r: Flags)
        ensures
            r == self.spec_union(other),
    {
        Flags { bits: self.bits | other.bits }
    }

    /// Whether every bit of `other` is set in `self`.
    pub fn contains(&self, other: Flags) -> (r: bool)
        ensures
            r == (self.bits & other.bits == other.bits),
    {
        self.bits & other.bits == other.bits
    }
}

} // verus!
