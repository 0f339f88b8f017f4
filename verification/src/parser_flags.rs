//! Flags that control how rows and the header row are read.
use vstd::prelude::*;

verus! {

/// A set of the flags below, as bits.
#[derive(Clone, Copy, PartialEq, Eq, Structural)]
pub struct ParserFlags {
    pub bits: u32,
}

impl ParserFlags {
    /// Tag handlers may rewrite each header cell.
    pub const MODIFY_HEADER: u32 = 0b00000001;
    /// The header row is returned as a row of its own.
    pub const RETURN_HEADER: u32 = 0b00000010;
    /// Rows come in order and missing rows are returned as blank rows.
    pub const ROWS_IN_SEQUENTIAL_ORDER_SKIP: u32 = 0b00000100;
    /// The first row of the range is a header.
    pub const HAS_HEADER: u32 = 0b00010000;
    /// Only rows present in the document are returned.
    pub const ONLY_GET_ROWS_THAT_EXIST: u32 = 0b00100000;
    /// Rows in order, the first one a header that is not returned.
    pub const DEFAULT_FLAGS_WITH_HEADER: u32 = ParserFlags::ROWS_IN_SEQUENTIAL_ORDER_SKIP
        | ParserFlags::HAS_HEADER;
    /// Rows in order, without a header.
    pub const DEFAULT_FLAGS_NO_HEADER: u32 = ParserFlags::ROWS_IN_SEQUENTIAL_ORDER_SKIP;
    /// Rows in order, the first one a header that handlers may rewrite and that is returned.
    pub const FULL_HEADER: u32 = ParserFlags::ROWS_IN_SEQUENTIAL_ORDER_SKIP
        | ParserFlags::HAS_HEADER | ParserFlags::MODIFY_HEADER | ParserFlags::RETURN_HEADER;

    /// Every flag of `bits` is set.
    pub open spec fn has(self, bits: u32) -> bool {
        self.bits & bits == bits
    }


    /// No flag set.
    pub fn empty() -> (f: ParserFlags)
        ensures
            f.bits == 0,
    {
        ParserFlags { bits: 0 }
    }

    /// The flags as bits.
    pub fn bits(&self) -> (b: u32)
        ensures
            b == self.bits,
    {
        self.bits
    }

    /// Whether every flag of `bits` is set.
    pub fn contains(&self, bits: u32) -> (b: bool)
        ensures
            b == self.has(bits),
    {
        self.bits & bits == bits
    }

    /// The flags set here or in `other`.
    pub fn union(self, other: ParserFlags) -> (f: ParserFlags)
        ensures
            f.bits == self.bits | other.bits,
    {
        ParserFlags { bits: self.bits | other.bits }
    }
}

/// The combined flags contain each of the flags they are made of.
pub proof fn law_combined_flags_contain_their_parts()
    ensures
        (ParserFlags { bits: ParserFlags::DEFAULT_FLAGS_WITH_HEADER }).has(
            ParserFlags::ROWS_IN_SEQUENTIAL_ORDER_SKIP,
        ),
        (ParserFlags { bits: ParserFlags::DEFAULT_FLAGS_WITH_HEADER }).has(ParserFlags::HAS_HEADER),
        !(ParserFlags { bits: ParserFlags::DEFAULT_FLAGS_NO_HEADER }).has(ParserFlags::HAS_HEADER),
        (ParserFlags { bits: ParserFlags::FULL_HEADER }).has(ParserFlags::MODIFY_HEADER),
        (ParserFlags { bits: ParserFlags::FULL_HEADER }).has(ParserFlags::RETURN_HEADER),
        (ParserFlags { bits: ParserFlags::FULL_HEADER }).has(ParserFlags::HAS_HEADER),
        (ParserFlags { bits: ParserFlags::FULL_HEADER }).has(ParserFlags::ROWS_IN_SEQUENTIAL_ORDER_SKIP),
        !(ParserFlags { bits: ParserFlags::FULL_HEADER }).has(ParserFlags::ONLY_GET_ROWS_THAT_EXIST),
{
    assert(0b00010100u32 & 0b00000100u32 == 0b00000100u32) by (bit_vector);
    assert(0b00010100u32 & 0b00010000u32 == 0b00010000u32) by (bit_vector);
    assert(0b00000100u32 & 0b00010000u32 != 0b00010000u32) by (bit_vector);
    assert(0b00010111u32 & 0b00000001u32 == 0b00000001u32) by (bit_vector);
    assert(0b00010111u32 & 0b00000010u32 == 0b00000010u32) by (bit_vector);
    assert(0b00010111u32 & 0b00010000u32 == 0b00010000u32) by (bit_vector);
    assert(0b00010111u32 & 0b00000100u32 == 0b00000100u32) by (bit_vector);
    assert(0b00010111u32 & 0b00100000u32 != 0b00100000u32) by (bit_vector);
    assert(0b00000100u32 | 0b00010000u32 == 0b00010100u32) by (bit_vector);
    assert(0b00000100u32 | 0b00010000u32 | 0b00000001u32 | 0b00000010u32 == 0b00010111u32)
        by (bit_vector);
}

/// A union contains every flag of either side.
pub proof fn law_union_contains_both(a: ParserFlags, b: ParserFlags, bits: u32)
    requires
        a.has(bits) || b.has(bits),
    ensures
        (ParserFlags { bits: a.bits | b.bits }).has(bits),
{
    let x = a.bits;
    let y = b.bits;
    assert((x & bits == bits || y & bits == bits) ==> (x | y) & bits == bits) by (bit_vector);
}

} // verus!
