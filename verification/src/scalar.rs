//! Real-valued quantities, held as the bit pattern of an IEEE 754 binary64
//! number.
//!
//! The library never computes with such a quantity: it compares, clamps and
//! orders them. All of that can be read off the bit pattern, because for
//! numbers of one sign the patterns are ordered as the numbers are.

use vstd::prelude::*;

verus! {

/// The bit that holds the sign.
pub const SIGN_BIT: u64 = 0x8000_0000_0000_0000;

/// The pattern of positive infinity; a larger magnitude is not a number.
pub const INFINITY_BITS: u64 = 0x7FF0_0000_0000_0000;

/// The pattern of 1.0.
pub const ONE_BITS: u64 = 0x3FF0_0000_0000_0000;

/// The pattern of -1.0.
pub const MINUS_ONE_BITS: u64 = 0xBFF0_0000_0000_0000;

/// The pattern of 0.5.
pub const HALF_BITS: u64 = 0x3FE0_0000_0000_0000;

/// A binary64 number, by its bit pattern.
#[derive(Clone, Copy, Debug)]
pub struct Scalar {
    pub bits: u64,
}

impl Scalar {
    /// The pattern without its sign bit.
    pub open spec fn magnitude(self) -> int {
        if self.bits < SIGN_BIT {
            self.bits as int
        } else {
            self.bits - SIGN_BIT
        }
    }

    /// Whether the pattern stands for no number at all.
    pub open spec fn nan(self) -> bool {
        self.magnitude() > INFINITY_BITS
    }

    /// The place of a number in the order of all numbers. Both zeros have rank 0.
    pub open spec fn rank(self) -> int {
        if self.bits < SIGN_BIT {
            self.magnitude()
        } else {
            -self.magnitude()
        }
    }

    /// `self < other`; false as soon as one of them is not a number.
    pub open spec fn below(self, other: Scalar) -> bool {
        !self.nan() && !other.nan() && self.rank() < other.rank()
    }

    /// `self` moved into `lo ..= hi`; what is not a number stays as it is.
    pub open spec fn clamped(self, lo: Scalar, hi: Scalar) -> Scalar {
        if self.below(lo) {
            lo
        } else if hi.below(self) {
            hi
        } else {
            self
        }
    }

    /// The larger of two; a number wins over what is not one.
    pub open spec fn larger(self, other: Scalar) -> Scalar {
        if self.nan() || self.below(other) {
            other
        } else {
            self
        }
    }

    pub fn is_nan(self) -> (r: bool)
        ensures
            r == self.nan(),
    {
        if self.bits < SIGN_BIT {
            self.bits > INFINITY_BITS
        } else {
            self.bits - SIGN_BIT > INFINITY_BITS
        }
    }

    pub fn lt(self, other: Scalar) -> (r: bool)
        ensures
            r == self.below(other),
    {
        if self.is_nan() || other.is_nan() {
            false
        } else if self.bits < SIGN_BIT {
            other.bits < SIGN_BIT && self.bits < other.bits
        } else if other.bits < SIGN_BIT {
            self.bits - SIGN_BIT > 0 || other.bits > 0
        } else {
            self.bits > other.bits
        }
    }

    /// Moves a value into `lo ..= hi`.
    pub fn clamp(self, lo: Scalar, hi: Scalar) -> (r: Scalar)
        requires
            !lo.nan(),
            !hi.nan(),
            lo.rank() <= hi.rank(),
        ensures
            r == self.clamped(lo, hi),
            !self.nan() ==> !r.nan() && lo.rank() <= r.rank() <= hi.rank(),
            self.nan() ==> r == self,
    {
        if self.lt(lo) {
            lo
        } else if hi.lt(self) {
            hi
        } else {
            self
        }
    }

    /// The larger of two values. Of the two zeros either may come out.
    pub fn max(self, other: Scalar) -> (r: Scalar)
        ensures
            r == self.larger(other),
    {
        if self.is_nan() || self.lt(other) {
            other
        } else {
            self
        }
    }
}

/// A position on the density axis: a value of `-1 ..= 1`, or not a number.
#[derive(Clone, Copy, Debug)]
pub struct Position {
    value: Scalar,
}

impl Position {
    #[verifier::type_invariant]
    spec fn in_range(self) -> bool {
        within(self.value, Scalar { bits: MINUS_ONE_BITS }, Scalar { bits: ONE_BITS })
    }

    /// The value of the position.
    pub closed spec fn val(self) -> Scalar {
        self.value
    }

    /// The position nearest to a computed coordinate.
    pub fn at(raw: Scalar) -> (r: Position)
        ensures
            r.val() == raw.clamped(Scalar { bits: MINUS_ONE_BITS }, Scalar { bits: ONE_BITS }),
    {
        Position { value: raw.clamp(Scalar { bits: MINUS_ONE_BITS }, Scalar { bits: ONE_BITS }) }
    }

    pub fn get(self) -> (r: Scalar)
        ensures
            r == self.val(),
            within(r, Scalar { bits: MINUS_ONE_BITS }, Scalar { bits: ONE_BITS }),
    {
        proof {
            use_type_invariant(&self);
        }
        self.value
    }
}

/// `lo <= x <= hi`, or `x` is not a number.
pub open spec fn within(x: Scalar, lo: Scalar, hi: Scalar) -> bool {
    x.nan() || lo.rank() <= x.rank() <= hi.rank()
}

/// Whatever number is clamped, the result lies between the bounds; what lies
/// there already is left as it is, so clamping twice is clamping once.
pub proof fn law_clamped_stays_within(raw: Scalar, lo: Scalar, hi: Scalar)
    requires
        !lo.nan(),
        !hi.nan(),
        lo.rank() <= hi.rank(),
    ensures
        within(raw.clamped(lo, hi), lo, hi),
        raw.clamped(lo, hi).clamped(lo, hi) == raw.clamped(lo, hi),
        within(raw, lo, hi) ==> raw.clamped(lo, hi) == raw,
{
}

/// The order of numbers is that of their patterns for numbers without a sign, and
/// the other way round for those with one; a number with a sign lies below one
/// without, but for the two zeros. A larger pattern than that of infinity is no
/// number, and lies below and above nothing.
pub proof fn law_order_is_that_of_patterns(a: Scalar, b: Scalar)
    ensures
        a.bits <= 0x7FF0_0000_0000_0000 && b.bits <= 0x7FF0_0000_0000_0000 ==> (a.below(b)
            <==> a.bits < b.bits),
        0x8000_0000_0000_0000 <= a.bits <= 0xFFF0_0000_0000_0000 && 0x8000_0000_0000_0000 <= b.bits
            <= 0xFFF0_0000_0000_0000 ==> (a.below(b) <==> a.bits > b.bits),
        0x8000_0000_0000_0000 <= a.bits <= 0xFFF0_0000_0000_0000 && b.bits <= 0x7FF0_0000_0000_0000
            ==> !b.below(a) && (a.below(b) <==> a.bits != 0x8000_0000_0000_0000 || b.bits != 0),
        a.nan() <==> 0x7FF0_0000_0000_0000 < a.bits < 0x8000_0000_0000_0000 || a.bits
            > 0xFFF0_0000_0000_0000,
        a.nan() ==> !a.below(b) && !b.below(a),
        !a.nan() && !b.nan() ==> (a.below(b) <==> a.rank() < b.rank()),
{
}

/// Zero has rank 0, and a number and its negative have opposite ranks.
pub proof fn law_ranks_are_signed(a: Scalar)
    requires
        a.bits < 0x8000_0000_0000_0000,
    ensures
        a.rank() == a.bits,
        (Scalar { bits: (a.bits + 0x8000_0000_0000_0000) as u64 }).rank() == -a.bits,
{
}

/// The larger of two numbers is one of them, and neither lies above it; of a
/// number and what is none it is the number.
pub proof fn law_larger_is_one_of_both(a: Scalar, b: Scalar)
    ensures
        a.larger(b) == a || a.larger(b) == b,
        !a.larger(b).below(a),
        !a.larger(b).below(b),
        a.nan() ==> a.larger(b) == b,
        b.nan() && !a.nan() ==> a.larger(b) == a,
{
}

/// What lies below the bounds goes to the lower one, what lies above them to the
/// upper one, and what is no number stays.
pub proof fn law_clamping_goes_to_the_bound(raw: Scalar, lo: Scalar, hi: Scalar)
    requires
        !lo.nan(),
        !hi.nan(),
        lo.rank() <= hi.rank(),
    ensures
        raw.nan() ==> raw.clamped(lo, hi) == raw,
        !raw.nan() && raw.rank() < lo.rank() ==> raw.clamped(lo, hi) == lo,
        !raw.nan() && raw.rank() > hi.rank() ==> raw.clamped(lo, hi) == hi,
{
}

} // verus!
