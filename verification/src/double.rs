//! Double-precision numbers held by their bit patterns.
//!
//! Measurements reach this library as IEEE 754 binary64 values. The logic only
//! orders them and passes them on, so a value is kept as the 64 bits of its
//! encoding, and the contracts speak of the number that the bits stand for.

use vstd::arithmetic::power2::pow2;
use vstd::prelude::*;

verus! {

/// The weight of the sign bit.
pub const SIGN: u64 = 0x8000_0000_0000_0000;

/// The magnitude of an infinity; anything above it is not a number.
pub const INFINITE: u64 = 0x7ff0_0000_0000_0000;

/// The weight of the lowest exponent bit.
pub const EXPONENT_STEP: u64 = 0x10_0000_0000_0000;

/// The bits of an IEEE 754 binary64 value.
#[derive(Clone, Copy, Debug, PartialEq, Eq, Structural)]
pub struct Double {
    pub bits: u64,
}

/// The absolute value encoded by a sign-less pattern, in units of 2^-1074 (the
/// smallest positive double), so that it is a whole number. An infinity counts
/// as 2^1024, which exceeds every finite value.
pub open spec fn magnitude_value(magnitude: nat) -> nat {
    let exponent = magnitude / (EXPONENT_STEP as nat);
    let fraction = magnitude % (EXPONENT_STEP as nat);
    if exponent == 0 {
        fraction
    } else {
        (EXPONENT_STEP as nat + fraction) * pow2((exponent - 1) as nat)
    }
}

/// The whole number `n` in units of 2^-1074.
pub open spec fn whole(n: int) -> int {
    n * pow2(1074)
}

/// One half in units of 2^-1074.
pub open spec fn half() -> int {
    pow2(1073) as int
}

impl Double {
    /// The pattern without its sign bit.
    pub open spec fn magnitude(self) -> nat {
        if self.bits >= SIGN {
            (self.bits - SIGN) as nat
        } else {
            self.bits as nat
        }
    }

    /// Whether the pattern encodes no number.
    pub open spec fn is_nan_spec(self) -> bool {
        self.magnitude() > INFINITE
    }

    /// The encoded number in units of 2^-1074 (see [`magnitude_value`]).
    pub open spec fn value(self) -> int {
        if self.bits >= SIGN {
            -(magnitude_value(self.magnitude()) as int)
        } else {
            magnitude_value(self.magnitude()) as int
        }
    }

    /// `self <= other` on the encoded numbers; false if either is not a number.
    pub open spec fn at_most(self, other: Double) -> bool {
        !self.is_nan_spec() && !other.is_nan_spec() && self.value() <= other.value()
    }

    /// The position of the pattern in the order of the encoded numbers.
    spec fn rank(self) -> int {
        if self.bits >= SIGN {
            -(self.magnitude() as int)
        } else {
            self.magnitude() as int
        }
    }

    /// The value zero.
    #[verifier::allow_in_spec]
    pub fn zero() -> Double
        returns
            (Double { bits: 0 }),
    {
        Double { bits: 0 }
    }

    /// Takes the bit pattern of a value.
    pub fn from_bits(bits: u64) -> (d: Double)
        ensures
            d.bits == bits,
    {
        Double { bits }
    }

    /// The bit pattern of the value.
    pub fn to_bits(self) -> (bits: u64)
        ensures
            bits == self.bits,
    {
        self.bits
    }

    /// Whether the pattern encodes no number.
    pub fn is_nan(self) -> (b: bool)
        ensures
            b == self.is_nan_spec(),
    {
        if self.bits >= SIGN {
            self.bits - SIGN > INFINITE
        } else {
            self.bits > INFINITE
        }
    }

    /// `self <= other` on the encoded numbers; false if either is not a number.
    pub fn le(self, other: Double) -> (b: bool)
        ensures
            b == self.at_most(other),
    {
        proof {
            lemma_rank_orders(self, other);
        }
        if self.is_nan() || other.is_nan() {
            false
        } else if self.bits >= SIGN {
            if other.bits >= SIGN {
                other.bits <= self.bits
            } else {
                true
            }
        } else if other.bits >= SIGN {
            self.bits == 0 && other.bits == SIGN
        } else {
            self.bits <= other.bits
        }
    }

    /// `self > other` on the encoded numbers; false if either is not a number.
    pub fn gt(self, other: Double) -> (b: bool)
        ensures
            b == (!self.is_nan_spec() && !other.is_nan_spec() && self.value() > other.value()),
    {
        !self.is_nan() && !other.is_nan() && !self.le(other)
    }

    /// The larger of two values; a value that is not a number gives way to the
    /// other one.
    pub fn max(self, other: Double) -> (d: Double)
        ensures
            self.is_nan_spec() ==> d == other,
            !self.is_nan_spec() && other.is_nan_spec() ==> d == self,
            !self.is_nan_spec() && !other.is_nan_spec() ==> d == (if other.at_most(self) {
                self
            } else {
                other
            }),
    {
        if self.is_nan() {
            other
        } else if other.is_nan() {
            self
        } else if other.le(self) {
            self
        } else {
            other
        }
    }
}

/// The value of a magnitude grows with every step of the pattern.
proof fn lemma_magnitude_step(m: nat)
    ensures
        magnitude_value(m) < magnitude_value(m + 1),
{
    let step = EXPONENT_STEP as nat;
    let e = m / step;
    let f = m % step;
    if e > 0 {
        vstd::arithmetic::power2::lemma_pow2_pos((e - 1) as nat);
    }
    if f + 1 < step {
        assert((m + 1) / step == e && (m + 1) % step == f + 1);
        if e > 0 {
            let p = pow2((e - 1) as nat);
            assert((step + f) * p < (step + f + 1) * p) by (nonlinear_arith)
                requires
                    p > 0,
            ;
            assert(magnitude_value(m) == (step + f) * p);
            assert(magnitude_value(m + 1) == (step + f + 1) * p);
        }
    } else {
        assert((m + 1) / step == e + 1 && (m + 1) % step == 0);
        if e > 0 {
            let p = pow2((e - 1) as nat);
            vstd::arithmetic::power2::lemma_pow2_unfold(e);
            assert((step + f) * p < step * (2 * p)) by (nonlinear_arith)
                requires
                    p > 0,
                    f < step,
            ;
            assert(magnitude_value(m) == (step + f) * p);
            assert(magnitude_value(m + 1) == step * (2 * p));
        } else {
            vstd::arithmetic::power2::lemma2_to64();
            assert(magnitude_value(m) == f);
            assert(magnitude_value(m + 1) == step * pow2(0));
            assert(step * pow2(0) == step) by (nonlinear_arith)
                requires
                    pow2(0) == 1,
            ;
        }
    }
}

/// Larger patterns without a sign encode larger values.
proof fn lemma_magnitude_monotone(a: nat, b: nat)
    requires
        a < b,
    ensures
        magnitude_value(a) < magnitude_value(b),
    decreases b - a,
{
    lemma_magnitude_step(a);
    if a + 1 < b {
        lemma_magnitude_monotone(a + 1, b);
    }
}

/// Comparing two patterns by rank compares the numbers that they encode.
proof fn lemma_rank_orders(a: Double, b: Double)
    ensures
        a.value() <= b.value() <==> a.rank() <= b.rank(),
{
    let ma = a.magnitude();
    let mb = b.magnitude();
    assert(magnitude_value(0) == 0);
    if ma > 0 {
        lemma_magnitude_monotone(0, ma);
    }
    if mb > 0 {
        lemma_magnitude_monotone(0, mb);
    }
    if ma < mb {
        lemma_magnitude_monotone(ma, mb);
    }
    if mb < ma {
        lemma_magnitude_monotone(mb, ma);
    }
}

/// The value of a normal pattern without a sign whose significand is the whole
/// number `n` scaled by a power of two.
pub(crate) proof fn lemma_whole(d: Double, n: nat, shift: nat)
    requires
        d.bits < INFINITE,
        shift <= 1074,
        d.bits / EXPONENT_STEP == 1075 - shift,
        EXPONENT_STEP + d.bits % EXPONENT_STEP == n * pow2(shift),
    ensures
        !d.is_nan_spec(),
        d.value() == whole(n as int),
{
    let e = (1074 - shift) as nat;
    vstd::arithmetic::power2::lemma_pow2_adds(shift, e);
    assert(n * pow2(shift) * pow2(e) == n * (pow2(shift) * pow2(e))) by (nonlinear_arith);
}

/// No number is less than negative infinity, and only it is that small.
pub(crate) proof fn lemma_negative_infinity_is_least(d: Double)
    requires
        !d.is_nan_spec(),
    ensures
        ({
            let least = Double { bits: 0xfff0_0000_0000_0000 };
            least.at_most(d) && (d.at_most(least) ==> d == least)
        }),
{
    let least = Double { bits: 0xfff0_0000_0000_0000 };
    lemma_rank_orders(least, d);
    lemma_rank_orders(d, least);
}

/// What encodes no number are the patterns whose exponent is all ones and whose
/// fraction is not zero.
pub proof fn nan_has_a_payload(d: Double)
    ensures
        d.is_nan_spec() <==> d.magnitude() / (EXPONENT_STEP as nat) == 0x7ff && d.magnitude() % (
        EXPONENT_STEP as nat) != 0,
{
}

/// The sign bit turns a number into its opposite; without it, a larger pattern is
/// a larger number, beginning with zero for the least.
pub proof fn patterns_are_in_order(a: Double, b: Double)
    requires
        a.bits < b.bits < SIGN,
    ensures
        0 <= a.value() < b.value(),
        a.bits == 0 <==> a.value() == 0,
        (Double { bits: (b.bits + SIGN) as u64 }).value() == -b.value(),
        (Double { bits: (a.bits + SIGN) as u64 }).value() == -a.value(),
{
    lemma_magnitude_monotone(a.bits as nat, b.bits as nat);
    assert(magnitude_value(0) == 0);
    if a.bits > 0 {
        lemma_magnitude_monotone(0, a.bits as nat);
    }
}

/// The next exponent means twice the number.
pub proof fn exponent_counts_doublings(d: Double)
    requires
        EXPONENT_STEP <= d.bits < INFINITE,
    ensures
        (Double { bits: (d.bits + EXPONENT_STEP) as u64 }).value() == 2 * d.value(),
{
    let step = EXPONENT_STEP as nat;
    let m = d.bits as nat;
    let e = m / step;
    let f = m % step;
    let p = pow2((e - 1) as nat);
    vstd::arithmetic::power2::lemma_pow2_unfold(e);
    assert((m + step) / step == e + 1 && (m + step) % step == f);
    assert((step + f) * (2 * p) == 2 * ((step + f) * p)) by (nonlinear_arith);
}

} // verus!
