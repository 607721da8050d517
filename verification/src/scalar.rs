//! Binary32 numbers, held by their bit pattern and ordered by it.

use vstd::prelude::*;

verus! {

/// The pattern's bits below the sign bit.
pub const MAGNITUDE_MASK: u32 = 0x7fff_ffff;

/// The sign bit of a pattern.
pub const SIGN_MASK: u32 = 0x8000_0000;

/// The magnitude of an infinity; every larger magnitude is not a number.
pub const INFINITY_MAGNITUDE: u32 = 0x7f80_0000;

/// A binary32 number, held by its bit pattern.
///
/// A pattern is a sign bit over a 31-bit magnitude. Among numbers, a larger
/// magnitude is further from zero, so sign and magnitude order them; the two
/// zeros rank alike. Magnitudes above that of infinity are not numbers, and
/// compare with nothing.
#[derive(Clone, Copy, Debug)]
pub struct Scalar {
    pub bits: u32,
}

impl Scalar {
    /// The pattern without its sign bit, as a number.
    pub open spec fn magnitude(self) -> int {
        (self.bits & MAGNITUDE_MASK) as int
    }

    /// Whether the sign bit is set.
    pub open spec fn sign(self) -> bool {
        self.bits & SIGN_MASK != 0
    }

    /// Whether the pattern is not a number.
    pub open spec fn spec_is_nan(self) -> bool {
        self.magnitude() > INFINITY_MAGNITUDE
    }

    /// The place of a number in the order of all numbers: the magnitude,
    /// counted downward from zero where the sign bit is set.
    pub open spec fn key(self) -> int {
        if self.sign() {
            -self.magnitude()
        } else {
            self.magnitude()
        }
    }

    /// Strictly less, as binary32 numbers compare: false where either side is
    /// not a number.
    pub open spec fn spec_lt(self, other: Scalar) -> bool {
        !self.spec_is_nan() && !other.spec_is_nan() && self.key() < other.key()
    }

    /// Less or equal, as binary32 numbers compare.
    pub open spec fn spec_le(self, other: Scalar) -> bool {
        !self.spec_is_nan() && !other.spec_is_nan() && self.key() <= other.key()
    }

    /// Equal, as binary32 numbers compare: the two zeros are equal, and what
    /// is not a number equals nothing.
    pub open spec fn same(self, other: Scalar) -> bool {
        !self.spec_is_nan() && !other.spec_is_nan() && self.key() == other.key()
    }

    /// The smaller of two numbers. What is not a number gives way to the other
    /// side, and of the two zeros the negative one is the smaller.
    pub open spec fn spec_min(self, other: Scalar) -> Scalar {
        if self.spec_is_nan() {
            other
        } else if other.spec_is_nan() {
            self
        } else if self.key() < other.key() || (self.key() == other.key() && self.sign()) {
            self
        } else {
            other
        }
    }

    /// The larger of two numbers. What is not a number gives way to the other
    /// side, and of the two zeros the positive one is the larger.
    pub open spec fn spec_max(self, other: Scalar) -> Scalar {
        if self.spec_is_nan() {
            other
        } else if other.spec_is_nan() {
            self
        } else if self.key() > other.key() || (self.key() == other.key() && !self.sign()) {
            self
        } else {
            other
        }
    }

    /// The number with the opposite sign.
    pub open spec fn spec_neg(self) -> Scalar {
        Scalar { bits: self.bits ^ SIGN_MASK }
    }

    /// The number without its sign.
    pub open spec fn spec_abs(self) -> Scalar {
        Scalar { bits: self.bits & MAGNITUDE_MASK }
    }

    /// Positive zero.
    pub open spec fn spec_zero() -> Scalar {
        Scalar { bits: 0 }
    }

    /// One.
    pub open spec fn spec_one() -> Scalar {
        Scalar { bits: 0x3f80_0000 }
    }

    /// Positive infinity.
    pub open spec fn spec_infinity() -> Scalar {
        Scalar { bits: 0x7f80_0000 }
    }

    /// Negative infinity.
    pub open spec fn spec_neg_infinity() -> Scalar {
        Scalar { bits: 0xff80_0000 }
    }

    /// A pattern is fixed by its sign and its magnitude.
    pub proof fn lemma_sign_magnitude(a: Scalar, b: Scalar)
        requires
            a.sign() == b.sign(),
            a.magnitude() == b.magnitude(),
        ensures
            a == b,
    {
        let x = a.bits;
        let y = b.bits;
        assert(((x & 0x8000_0000u32 != 0) == (y & 0x8000_0000u32 != 0)) && (x & 0x7fff_ffffu32)
            == (y & 0x7fff_ffffu32) ==> x == y) by (bit_vector);
    }

    /// The magnitude has 31 bits, and the key lies within them on both sides.
    pub proof fn lemma_key_range(a: Scalar)
        ensures
            0 <= a.magnitude() <= MAGNITUDE_MASK,
            -(MAGNITUDE_MASK as int) <= a.key() <= MAGNITUDE_MASK,
            a.sign() <==> a.bits >= SIGN_MASK,
    {
        let x = a.bits;
        assert(x & 0x7fff_ffffu32 <= 0x7fff_ffffu32) by (bit_vector);
        assert((x & 0x8000_0000u32 != 0) <==> x >= 0x8000_0000u32) by (bit_vector);
    }

    /// Negation keeps the magnitude and turns the sign.
    pub proof fn lemma_neg(a: Scalar)
        ensures
            a.spec_neg().magnitude() == a.magnitude(),
            a.spec_neg().sign() == !a.sign(),
            a.spec_neg().key() == -a.key(),
            a.spec_neg().spec_is_nan() == a.spec_is_nan(),
            a.spec_neg().spec_neg() == a,
    {
        let x = a.bits;
        assert((x ^ 0x8000_0000u32) & 0x7fff_ffffu32 == x & 0x7fff_ffffu32) by (bit_vector);
        assert(((x ^ 0x8000_0000u32) & 0x8000_0000u32 != 0) == !(x & 0x8000_0000u32 != 0))
            by (bit_vector);
        assert((x ^ 0x8000_0000u32) ^ 0x8000_0000u32 == x) by (bit_vector);
    }

    /// The absolute value keeps the magnitude and clears the sign.
    pub proof fn lemma_abs(a: Scalar)
        ensures
            a.spec_abs().magnitude() == a.magnitude(),
            !a.spec_abs().sign(),
            a.spec_abs().key() == a.magnitude(),
            a.spec_abs().spec_is_nan() == a.spec_is_nan(),
    {
        let x = a.bits;
        assert((x & 0x7fff_ffffu32) & 0x7fff_ffffu32 == x & 0x7fff_ffffu32) by (bit_vector);
        assert((x & 0x7fff_ffffu32) & 0x8000_0000u32 == 0) by (bit_vector);
    }

    /// Minimum and maximum may be taken of three numbers in either grouping.
    pub proof fn lemma_min_max_associate(a: Scalar, b: Scalar, c: Scalar)
        requires
            !a.spec_is_nan(),
            !b.spec_is_nan(),
            !c.spec_is_nan(),
        ensures
            a.spec_min(b).spec_min(c) == a.spec_min(b.spec_min(c)),
            a.spec_max(b).spec_max(c) == a.spec_max(b.spec_max(c)),
    {
        Self::lemma_min_max(a, b);
        Self::lemma_min_max(b, c);
        Self::lemma_min_max(a, c);
        if a.key() == b.key() && a.sign() == b.sign() {
            Self::lemma_sign_magnitude(a, b);
        }
        if b.key() == c.key() && b.sign() == c.sign() {
            Self::lemma_sign_magnitude(b, c);
        }
        if a.key() == c.key() && a.sign() == c.sign() {
            Self::lemma_sign_magnitude(a, c);
        }
    }

    /// The pattern as it stands.
    pub fn to_bits(self) -> (bits: u32)
        ensures
            bits == self.bits,
    {
        self.bits
    }

    /// The number that a pattern stands for.
    pub fn from_bits(bits: u32) -> (s: Self)
        ensures
            s.bits == bits,
    {
        Scalar { bits }
    }

    /// Positive zero.
    #[verifier::when_used_as_spec(spec_zero)]
    pub fn zero() -> (s: Self)
        ensures
            s == Self::spec_zero(),
            s.key() == 0,
            !s.spec_is_nan(),
    {
        assert(0u32 & 0x7fff_ffffu32 == 0) by (bit_vector);
        assert(0u32 & 0x8000_0000u32 == 0) by (bit_vector);
        Scalar { bits: 0 }
    }

    /// One.
    #[verifier::when_used_as_spec(spec_one)]
    pub fn one() -> (s: Self)
        ensures
            s == Self::spec_one(),
            s.key() == 0x3f80_0000,
            !s.spec_is_nan(),
    {
        assert(0x3f80_0000u32 & 0x7fff_ffffu32 == 0x3f80_0000u32) by (bit_vector);
        assert(0x3f80_0000u32 & 0x8000_0000u32 == 0) by (bit_vector);
        Scalar { bits: 0x3f80_0000 }
    }

    /// Positive infinity: no number ranks above it.
    #[verifier::when_used_as_spec(spec_infinity)]
    pub fn infinity() -> (s: Self)
        ensures
            s == Self::spec_infinity(),
            s.key() == INFINITY_MAGNITUDE,
            !s.spec_is_nan(),
            forall|x: Scalar| !x.spec_is_nan() ==> #[trigger] x.spec_le(s),
    {
        assert(0x7f80_0000u32 & 0x7fff_ffffu32 == 0x7f80_0000u32) by (bit_vector);
        assert(0x7f80_0000u32 & 0x8000_0000u32 == 0) by (bit_vector);
        let s = Scalar { bits: 0x7f80_0000 };
        assert forall|x: Scalar| !x.spec_is_nan() implies #[trigger] x.spec_le(s) by {
            Self::lemma_key_range(x);
        }
        s
    }

    /// Negative infinity: no number ranks below it.
    #[verifier::when_used_as_spec(spec_neg_infinity)]
    pub fn neg_infinity() -> (s: Self)
        ensures
            s == Self::spec_neg_infinity(),
            s.key() == -(INFINITY_MAGNITUDE as int),
            !s.spec_is_nan(),
            forall|x: Scalar| !x.spec_is_nan() ==> #[trigger] s.spec_le(x),
    {
        assert(0xff80_0000u32 & 0x7fff_ffffu32 == 0x7f80_0000u32) by (bit_vector);
        assert(0xff80_0000u32 & 0x8000_0000u32 != 0) by (bit_vector);
        let s = Scalar { bits: 0xff80_0000 };
        assert forall|x: Scalar| !x.spec_is_nan() implies #[trigger] s.spec_le(x) by {
            Self::lemma_key_range(x);
        }
        s
    }

    /// Whether the pattern is not a number.
    #[verifier::when_used_as_spec(spec_is_nan)]
    pub fn is_nan(self) -> (b: bool)
        ensures
            b == self.spec_is_nan(),
    {
        (self.bits & MAGNITUDE_MASK) > INFINITY_MAGNITUDE
    }

    /// Whether the number is one of the two zeros.
    pub fn is_zero(self) -> (b: bool)
        ensures
            b == (self.key() == 0),
            b == self.same(Self::spec_zero()),
    {
        proof {
            Self::lemma_key_range(self);
            assert(0u32 & 0x7fff_ffffu32 == 0) by (bit_vector);
            assert(0u32 & 0x8000_0000u32 == 0) by (bit_vector);
        }
        (self.bits & MAGNITUDE_MASK) == 0
    }

    /// The place of the number in the order of all numbers.
    pub fn rank(self) -> (k: i64)
        ensures
            k == self.key(),
    {
        proof {
            Self::lemma_key_range(self);
        }
        let magnitude: u32 = self.bits & MAGNITUDE_MASK;
        if self.bits & SIGN_MASK != 0 {
            -(magnitude as i64)
        } else {
            magnitude as i64
        }
    }

    /// Strictly less.
    #[verifier::when_used_as_spec(spec_lt)]
    pub fn lt(self, other: Scalar) -> (b: bool)
        ensures
            b == self.spec_lt(other),
    {
        !self.is_nan() && !other.is_nan() && self.rank() < other.rank()
    }

    /// Less or equal.
    #[verifier::when_used_as_spec(spec_le)]
    pub fn le(self, other: Scalar) -> (b: bool)
        ensures
            b == self.spec_le(other),
    {
        !self.is_nan() && !other.is_nan() && self.rank() <= other.rank()
    }

    /// Strictly greater.
    pub fn gt(self, other: Scalar) -> (b: bool)
        ensures
            b == other.spec_lt(self),
    {
        other.lt(self)
    }

    /// Greater or equal.
    pub fn ge(self, other: Scalar) -> (b: bool)
        ensures
            b == other.spec_le(self),
    {
        other.le(self)
    }

    /// Equal as numbers.
    pub fn equals(self, other: Scalar) -> (b: bool)
        ensures
            b == self.same(other),
    {
        !self.is_nan() && !other.is_nan() && self.rank() == other.rank()
    }

    /// The smaller of two numbers.
    #[verifier::when_used_as_spec(spec_min)]
    pub fn min(self, other: Scalar) -> (m: Scalar)
        ensures
            m == self.spec_min(other),
    {
        if self.is_nan() {
            other
        } else if other.is_nan() {
            self
        } else {
            let a: i64 = self.rank();
            let b: i64 = other.rank();
            if a < b || (a == b && self.bits & SIGN_MASK != 0) {
                self
            } else {
                other
            }
        }
    }

    /// The larger of two numbers.
    #[verifier::when_used_as_spec(spec_max)]
    pub fn max(self, other: Scalar) -> (m: Scalar)
        ensures
            m == self.spec_max(other),
    {
        if self.is_nan() {
            other
        } else if other.is_nan() {
            self
        } else {
            let a: i64 = self.rank();
            let b: i64 = other.rank();
            if a > b || (a == b && self.bits & SIGN_MASK == 0) {
                self
            } else {
                other
            }
        }
    }

    /// The number with the opposite sign.
    #[verifier::when_used_as_spec(spec_neg)]
    pub fn neg(self) -> (n: Scalar)
        ensures
            n == self.spec_neg(),
            n.key() == -self.key(),
            n.spec_is_nan() == self.spec_is_nan(),
    {
        proof {
            Self::lemma_neg(self);
        }
        Scalar { bits: self.bits ^ SIGN_MASK }
    }

    /// The number without its sign.
    #[verifier::when_used_as_spec(spec_abs)]
    pub fn abs(self) -> (n: Scalar)
        ensures
            n == self.spec_abs(),
            n.key() == self.magnitude(),
            n.spec_is_nan() == self.spec_is_nan(),
    {
        proof {
            Self::lemma_abs(self);
        }
        Scalar { bits: self.bits & MAGNITUDE_MASK }
    }

    /// The number held between two bounds: the lower bound where it ranks
    /// below it, the upper bound where it ranks above it.
    pub open spec fn spec_clamp(self, low: Scalar, high: Scalar) -> Scalar {
        if self.spec_lt(low) {
            low
        } else if high.spec_lt(self) {
            high
        } else {
            self
        }
    }

    /// The number held between two bounds.
    #[verifier::when_used_as_spec(spec_clamp)]
    pub fn clamp(self, low: Scalar, high: Scalar) -> (c: Scalar)
        requires
            low.spec_le(high),
        ensures
            c == self.spec_clamp(low, high),
            !self.spec_is_nan() ==> low.spec_le(c) && c.spec_le(high),
    {
        if self.lt(low) {
            low
        } else if high.lt(self) {
            high
        } else {
            self
        }
    }

    /// Minimum and maximum do not depend on the order of their arguments,
    /// and each gives one of its arguments.
    pub proof fn lemma_min_max(a: Scalar, b: Scalar)
        requires
            !a.spec_is_nan(),
            !b.spec_is_nan(),
        ensures
            a.spec_min(b) == b.spec_min(a),
            a.spec_max(b) == b.spec_max(a),
            a.spec_min(a) == a,
            a.spec_max(a) == a,
            a.spec_min(b) == a || a.spec_min(b) == b,
            a.spec_max(b) == a || a.spec_max(b) == b,
            !a.spec_min(b).spec_is_nan(),
            !a.spec_max(b).spec_is_nan(),
            a.spec_min(b).key() == if a.key() <= b.key() { a.key() } else { b.key() },
            a.spec_max(b).key() == if a.key() >= b.key() { a.key() } else { b.key() },
            a.spec_min(b).spec_le(a.spec_max(b)),
    {
        if a.key() == b.key() && a.sign() == b.sign() {
            if a.sign() {
                assert(a.magnitude() == b.magnitude());
            }
            Self::lemma_sign_magnitude(a, b);
        }
    }
}

impl PartialEq for Scalar {
    /// Equality of numbers, not of patterns.
    fn eq(&self, other: &Self) -> (b: bool) {
        self.equals(*other)
    }
}

impl vstd::std_specs::cmp::PartialEqSpecImpl for Scalar {
    open spec fn obeys_eq_spec() -> bool {
        true
    }

    open spec fn eq_spec(&self, other: &Self) -> bool {
        self.same(*other)
    }
}

} // verus!
