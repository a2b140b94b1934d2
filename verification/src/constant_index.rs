//! The index of a constant: three bytes, least significant first.

use vstd::prelude::*;

verus! {

/// The index of a constant in a pool. It is written into compiled code as three
/// bytes, so a pool has room for 16,777,216 constants.
#[derive(Clone, Copy, Debug, PartialEq, Eq, Hash, Structural)]
pub struct ConstantIndex(pub u8, pub u8, pub u8);

/// The error of an index that three bytes cannot hold: too many constants.
#[derive(Clone, Copy, Debug, PartialEq, Eq, Structural)]
pub struct ConstantIndexTryFromOutOfRange;

/// The greatest index.
pub const MAX_CONSTANT_INDEX: usize = 0xff_ffff;

impl ConstantIndex {
    /// The place in the pool that the index names.
    pub open spec fn position(self) -> nat {
        (self.0 as nat) + (self.1 as nat) * 256 + (self.2 as nat) * 65536
    }

    /// The index of a place in the pool, where three bytes can hold it.
    pub fn from_usize(value: usize) -> (out: Result<ConstantIndex, ConstantIndexTryFromOutOfRange>)
        ensures
            value <= MAX_CONSTANT_INDEX ==> out is Ok && out->Ok_0.position() == value,
            value > MAX_CONSTANT_INDEX ==> out is Err,
    {
        if value > MAX_CONSTANT_INDEX {
            Err(ConstantIndexTryFromOutOfRange)
        } else {
            Ok(ConstantIndex((value % 256) as u8, ((value / 256) % 256) as u8, (value / 65536) as u8))
        }
    }

    /// The place in the pool that the index names.
    pub fn to_usize(self) -> (out: usize)
        ensures
            out == self.position(),
            out <= MAX_CONSTANT_INDEX,
    {
        (self.0 as usize) + (self.1 as usize) * 256 + (self.2 as usize) * 65536
    }

    /// The three bytes of the index, least significant first.
    pub fn bytes(self) -> (out: [u8; 3])
        ensures
            out@ == seq![self.0, self.1, self.2],
    {
        let out = [self.0, self.1, self.2];
        assert(out@ =~= seq![self.0, self.1, self.2]);
        out
    }
}

impl From<u8> for ConstantIndex {
    fn from(value: u8) -> (out: Self) {
        ConstantIndex(value, 0, 0)
    }
}

impl vstd::std_specs::convert::FromSpecImpl<u8> for ConstantIndex {
    open spec fn obeys_from_spec() -> bool {
        true
    }

    open spec fn from_spec(value: u8) -> Self {
        ConstantIndex(value, 0, 0)
    }
}

impl From<ConstantIndex> for usize {
    fn from(index: ConstantIndex) -> (out: Self) {
        index.to_usize()
    }
}

impl vstd::std_specs::convert::FromSpecImpl<ConstantIndex> for usize {
    open spec fn obeys_from_spec() -> bool {
        true
    }

    open spec fn from_spec(index: ConstantIndex) -> Self {
        index.position() as usize
    }
}

/// Two indices that name the same place are the same index.
pub proof fn lemma_position_is_injective(a: ConstantIndex, b: ConstantIndex)
    requires
        a.position() == b.position(),
    ensures
        a == b,
{
}

} // verus!
