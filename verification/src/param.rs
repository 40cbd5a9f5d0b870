//! Ray parameters as the selection logic sees them.
//!
//! Choosing an intersection only ever compares parameters with one another.
//! A parameter is therefore held as its place in the order of the numbers: an
//! integer key that grows with the number it stands for, equal keys standing
//! for equal numbers. A value that is not a number has no place in that order
//! and compares with nothing, not even with itself.
//!
//! Numbers reach the library as IEEE 754 binary32 bit patterns: one sign bit,
//! eight exponent bits, twenty-three fraction bits. Among patterns of one sign
//! the numbers grow with the pattern read as an integer, so the key is that
//! integer with the sign of the number; the two zeros share the key zero, and
//! the two infinities get the keys beyond every finite number.

use vstd::prelude::*;

verus! {

/// The place of a ray parameter among the numbers.
#[derive(Clone, Copy, Debug, PartialEq, Eq, Structural)]
pub enum Param {
    /// Not a number: neither below nor above anything.
    Undefined,
    /// A number, by its order key.
    At(i64),
}

/// The pattern without its sign bit.
pub open spec fn magnitude_of(bits: u32) -> u32 {
    bits & 0x7fff_ffff
}

/// The pattern stands for no number: all exponent bits are set and the
/// fraction is not zero.
pub open spec fn is_nan_pattern(bits: u32) -> bool {
    magnitude_of(bits) > 0x7f80_0000
}

/// The sign bit of the pattern is set.
pub open spec fn is_negative_pattern(bits: u32) -> bool {
    bits & 0x8000_0000 != 0
}

impl Param {
    /// The place of the binary32 number with the bit pattern `bits`.
    pub open spec fn of_bits(bits: u32) -> Param {
        if is_nan_pattern(bits) {
            Param::Undefined
        } else if is_negative_pattern(bits) {
            Param::At((-(magnitude_of(bits) as int)) as i64)
        } else {
            Param::At(magnitude_of(bits) as i64)
        }
    }

    /// Finds the place of the binary32 number with the bit pattern `bits`.
    pub fn from_bits(bits: u32) -> (p: Param)
        ensures
            p == Param::of_bits(bits),
            p matches Param::At(key) ==> -0x7f80_0000 <= key <= 0x7f80_0000,
    {
        let magnitude: u32 = bits & 0x7fff_ffff;
        assert(magnitude <= 0x7fff_ffff) by (bit_vector)
            requires
                magnitude == bits & 0x7fff_ffff,
        ;
        if magnitude > 0x7f80_0000 {
            Param::Undefined
        } else if bits & 0x8000_0000 != 0 {
            Param::At(-(magnitude as i64))
        } else {
            Param::At(magnitude as i64)
        }
    }

    /// `self` is a number strictly below the number `other`.
    pub open spec fn lt(self, other: Param) -> bool {
        match (self, other) {
            (Param::At(a), Param::At(b)) => a < b,
            _ => false,
        }
    }

    /// `self` lies strictly between `lo` and `hi`.
    pub open spec fn within(self, lo: Param, hi: Param) -> bool {
        lo.lt(self) && self.lt(hi)
    }

    /// Tells whether `self` is strictly below `other`.
    pub fn less_than(self, other: Param) -> (below: bool)
        ensures
            below == self.lt(other),
    {
        match (self, other) {
            (Param::At(a), Param::At(b)) => a < b,
            _ => false,
        }
    }

    /// Tells whether `self` lies in the open interval from `lo` to `hi`.
    pub fn is_within(self, lo: Param, hi: Param) -> (inside: bool)
        ensures
            inside == self.within(lo, hi),
    {
        lo.less_than(self) && self.less_than(hi)
    }
}

/// Both zeros have the key zero, and no other pattern has it.
pub proof fn lemma_zero_key(bits: u32)
    ensures
        Param::of_bits(bits) == Param::At(0) <==> bits == 0 || bits == 0x8000_0000,
{
    assert(bits & 0x7fff_ffff == 0 <==> bits == 0 || bits == 0x8000_0000) by (bit_vector);
    assert(bits & 0x7fff_ffff <= 0x7fff_ffff) by (bit_vector);
}

/// Flipping the sign bit of a pattern mirrors its key about zero.
pub proof fn lemma_sign_mirrors_key(bits: u32)
    ensures
        match Param::of_bits(bits) {
            Param::At(key) => Param::of_bits(bits ^ 0x8000_0000) == Param::At((-key) as i64),
            Param::Undefined => Param::of_bits(bits ^ 0x8000_0000) is Undefined,
        },
{
    let flipped = bits ^ 0x8000_0000;
    assert(flipped & 0x7fff_ffff == bits & 0x7fff_ffff) by (bit_vector)
        requires
            flipped == bits ^ 0x8000_0000,
    ;
    assert((flipped & 0x8000_0000 != 0) <==> !(bits & 0x8000_0000 != 0)) by (bit_vector)
        requires
            flipped == bits ^ 0x8000_0000,
    ;
    assert(bits & 0x7fff_ffff <= 0x7fff_ffff) by (bit_vector);
}

/// Two patterns of numbers share a key only where they are the same pattern or
/// the two zeros: equal keys stand for equal numbers.
pub proof fn lemma_equal_keys(a: u32, b: u32)
    requires
        Param::of_bits(a) is At,
        Param::of_bits(a) == Param::of_bits(b),
    ensures
        a == b || Param::of_bits(a) == Param::At(0),
{
    assert(a & 0x7fff_ffff <= 0x7fff_ffff) by (bit_vector);
    assert(b & 0x7fff_ffff <= 0x7fff_ffff) by (bit_vector);
    assert((a & 0x7fff_ffff == b & 0x7fff_ffff) && ((a & 0x8000_0000 != 0) <==> (b & 0x8000_0000
        != 0)) ==> a == b) by (bit_vector);
}

/// Among patterns of numbers with a clear sign bit the key grows with the
/// pattern, and among those with a set sign bit it falls with it.
pub proof fn lemma_key_follows_pattern(a: u32, b: u32)
    requires
        Param::of_bits(a) is At,
        Param::of_bits(b) is At,
        is_negative_pattern(a) == is_negative_pattern(b),
        a < b,
    ensures
        is_negative_pattern(a) ==> Param::of_bits(b).lt(Param::of_bits(a)),
        !is_negative_pattern(a) ==> Param::of_bits(a).lt(Param::of_bits(b)),
{
    assert(a & 0x7fff_ffff <= 0x7fff_ffff) by (bit_vector);
    assert(b & 0x7fff_ffff <= 0x7fff_ffff) by (bit_vector);
    assert(((a & 0x8000_0000 != 0) <==> (b & 0x8000_0000 != 0)) && a < b ==> (a & 0x7fff_ffff) < (b
        & 0x7fff_ffff)) by (bit_vector);
}

} // verus!
