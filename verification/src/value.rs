//! Binary64 numbers as bit patterns, and what can be decided from the bits.

use vstd::arithmetic::div_mod::*;
use vstd::arithmetic::mul::*;
use vstd::arithmetic::power2::*;
use vstd::prelude::*;

verus! {

/// The sign bit of a binary64 bit pattern.
pub const SIGN_BIT: u64 = 0x8000_0000_0000_0000;

/// Two to the 52nd: the number of fraction patterns, and the weight of the
/// implicit leading bit of a normal significand.
pub const FRACTION_SPAN: u64 = 0x0010_0000_0000_0000;

/// The bit pattern of positive infinity; magnitudes above it are NaN.
pub const INFINITY_BITS: u64 = 0x7FF0_0000_0000_0000;

/// The bit pattern of 1.0.
pub const ONE_BITS: u64 = 0x3FF0_0000_0000_0000;

/// The exponent field from which on every normal number is whole: the bias
/// and the 52 bits of the fraction.
const WHOLE: u64 = 1075;

/// The exponent field of 1.0: a normal number is its significand times two to
/// the power of its exponent field less this bias.
pub const EXPONENT_BIAS: u64 = 1023;

/// The exponent field of the infinities and the NaNs.
pub const EXPONENT_MAX: u64 = 2047;

/// Every finite binary64 number is a whole multiple of the smallest
/// subnormal, which is two to the power of minus `scale()`.
pub open spec fn scale() -> nat {
    1074
}

/// An IEEE 754 binary64 number, held by its bit pattern.
///
/// Two values are `==` where their bit patterns are the same, so that a NaN is
/// `==` to itself and the two zeros are not. IEEE equality is `equals`.
#[derive(Clone, Copy, Debug, PartialEq, Eq)]
pub struct Value {
    pub bits: u64,
}

impl Value {
    /// Whether the sign bit is set.
    pub open spec fn sign_negative(self) -> bool {
        self.bits >= SIGN_BIT
    }

    /// The bit pattern without its sign bit.
    pub open spec fn magnitude(self) -> nat {
        (self.bits % SIGN_BIT) as nat
    }

    /// Not a number: the exponent field is all ones and the fraction is not zero.
    pub open spec fn nan(self) -> bool {
        self.magnitude() > INFINITY_BITS
    }

    /// Positive or negative infinity.
    pub open spec fn infinite(self) -> bool {
        self.magnitude() == INFINITY_BITS
    }

    /// Positive or negative zero.
    pub open spec fn zero(self) -> bool {
        self.magnitude() == 0
    }

    /// The absolute value times two to the 1074th, a natural number. For an
    /// infinity this is two to the 2098th, above every finite value; for a NaN
    /// it has no meaning.
    pub open spec fn scaled_magnitude(self) -> nat {
        weight(self.magnitude())
    }

    /// The value times two to the 1074th, an integer.
    pub open spec fn scaled(self) -> int {
        if self.sign_negative() {
            -(self.scaled_magnitude() as int)
        } else {
            self.scaled_magnitude() as int
        }
    }

    /// The place of the bit pattern in the order of the numbers: the magnitude,
    /// with the sign of the value. Both zeros have the place zero.
    pub open spec fn ordinal(self) -> int {
        if self.sign_negative() {
            -(self.magnitude() as int)
        } else {
            self.magnitude() as int
        }
    }

    /// IEEE equality: neither side is a NaN and both stand for the same
    /// number, so that the two zeros are equal.
    pub open spec fn same_number(self, other: Value) -> bool {
        !self.nan() && !other.nan() && self.scaled() == other.scaled()
    }

    /// IEEE `<`: neither side is a NaN and `self` stands for the smaller number.
    pub open spec fn below(self, other: Value) -> bool {
        !self.nan() && !other.nan() && self.scaled() < other.scaled()
    }

    /// The value with the other sign: negation flips the sign bit of every
    /// binary64 value, a NaN included, and leaves the magnitude alone.
    pub open spec fn opposite(self) -> Value {
        Value {
            bits: if self.bits >= SIGN_BIT {
                (self.bits - SIGN_BIT) as u64
            } else {
                (self.bits + SIGN_BIT) as u64
            },
        }
    }

    /// The result of a comparison: the number one where it holds, zero where
    /// it does not.
    pub open spec fn flag(holds: bool) -> Value {
        Value { bits: if holds { ONE_BITS } else { 0 } }
    }

    /// The index that the value names, if it names one: the value must be
    /// finite, not below zero, and a whole number. A whole number that no
    /// `usize` holds gives `usize::MAX`.
    pub open spec fn index(self) -> Option<usize> {
        if self.nan() || self.infinite() || (self.sign_negative() && !self.zero())
            || self.scaled_magnitude() % pow2(scale()) != 0 {
            None
        } else {
            let whole = self.scaled_magnitude() / pow2(scale());
            Some(
                if whole > usize::MAX {
                    usize::MAX
                } else {
                    whole as usize
                },
            )
        }
    }

    /// A value with the given bit pattern.
    pub fn from_bits(bits: u64) -> (v: Value)
        ensures
            v.bits == bits,
    {
        Value { bits }
    }

    /// The number 1.0 or the number 0.0, the results of a comparison.
    pub fn truth(holds: bool) -> (v: Value)
        ensures
            v == Value::flag(holds),
            !v.nan(),
            !v.sign_negative(),
            v.scaled() == if holds { pow2(scale()) as int } else { 0 },
    {
        proof {
            lemma_one_scaled();
        }
        if holds {
            Value { bits: ONE_BITS }
        } else {
            Value { bits: 0 }
        }
    }

    /// Whether the value compares equal to zero.
    pub fn is_zero(self) -> (r: bool)
        ensures
            r == self.zero(),
    {
        self.bits % SIGN_BIT == 0
    }

    /// The value with its sign bit flipped, which is what negation does to
    /// every binary64 value, a NaN included.
    pub fn negated(self) -> (v: Value)
        ensures
            v == self.opposite(),
            v.magnitude() == self.magnitude(),
            v.sign_negative() == !self.sign_negative(),
            v.scaled() == -self.scaled(),
    {
        if self.bits >= SIGN_BIT {
            Value { bits: self.bits - SIGN_BIT }
        } else {
            Value { bits: self.bits + SIGN_BIT }
        }
    }

    /// IEEE `==` on the two values.
    pub fn equals(self, other: Value) -> (r: bool)
        ensures
            r == self.same_number(other),
    {
        let a: u64 = self.bits % SIGN_BIT;
        let b: u64 = other.bits % SIGN_BIT;
        proof {
            lemma_weight_orders(a as nat, b as nat);
            lemma_weight_orders(0, a as nat);
            lemma_weight_orders(0, b as nat);
        }
        if a > INFINITY_BITS || b > INFINITY_BITS {
            false
        } else if a == 0 && b == 0 {
            true
        } else {
            self.bits == other.bits
        }
    }

    /// IEEE `<` on the two values.
    pub fn less_than(self, other: Value) -> (r: bool)
        ensures
            r == self.below(other),
    {
        let a: u64 = self.bits % SIGN_BIT;
        let b: u64 = other.bits % SIGN_BIT;
        proof {
            lemma_weight_orders(a as nat, b as nat);
            lemma_weight_orders(0, a as nat);
            lemma_weight_orders(0, b as nat);
        }
        if a > INFINITY_BITS || b > INFINITY_BITS {
            false
        } else if self.bits >= SIGN_BIT {
            if other.bits >= SIGN_BIT {
                b < a
            } else {
                a != 0 || b != 0
            }
        } else {
            other.bits < SIGN_BIT && a < b
        }
    }

    /// The index that the value names, if any.
    pub fn to_index(self) -> (r: Option<usize>)
        ensures
            r == self.index(),
    {
        let magnitude: u64 = self.bits % SIGN_BIT;
        let exponent: u64 = magnitude / FRACTION_SPAN;
        let fraction: u64 = magnitude % FRACTION_SPAN;
        proof {
            lemma_index_cases(magnitude as nat);
        }
        if magnitude == 0 {
            Some(0)
        } else if self.bits >= SIGN_BIT || exponent < EXPONENT_BIAS || exponent == EXPONENT_MAX {
            // Below zero, between zero and one, or not finite.
            None
        } else {
            // The number is the significand times two to the power of
            // `exponent - WHOLE`, and the significand has 53 bits.
            let significand: u64 = FRACTION_SPAN + fraction;
            if exponent <= WHOLE {
                let divisor: u64 = power_of_two(WHOLE - exponent);
                if significand % divisor != 0 {
                    None
                } else {
                    Some(saturate(significand / divisor))
                }
            } else if exponent - WHOLE <= 11 {
                let factor: u64 = power_of_two(exponent - WHOLE);
                Some(saturate(significand * factor))
            } else {
                Some(usize::MAX)
            }
        }
    }
}

/// What a magnitude stands for, times two to the 1074th: the fraction alone
/// where the exponent field is zero (a subnormal), else the fraction with its
/// leading bit, shifted by the exponent field less one.
pub open spec fn weight(magnitude: nat) -> nat {
    let exponent = magnitude / (FRACTION_SPAN as nat);
    let fraction = magnitude % (FRACTION_SPAN as nat);
    if exponent == 0 {
        fraction
    } else {
        (FRACTION_SPAN as nat + fraction) * pow2((exponent - 1) as nat)
    }
}

/// The narrowing of a whole number to `usize` that stops at `usize::MAX`.
fn saturate(n: u64) -> (r: usize)
    ensures
        r == if n > usize::MAX { usize::MAX } else { n as usize },
{
    if n > usize::MAX as u64 {
        usize::MAX
    } else {
        n as usize
    }
}

/// Two to the power `k`, for a `k` whose power fits in 64 bits.
fn power_of_two(k: u64) -> (r: u64)
    requires
        k < 64,
    ensures
        r == pow2(k as nat),
{
    let mut r: u64 = 1;
    let mut i: u64 = 0;
    proof {
        lemma2_to64();
    }
    while i < k
        invariant
            i <= k < 64,
            r == pow2(i as nat),
        decreases k - i,
    {
        proof {
            lemma_pow2_unfold((i + 1) as nat);
            lemma2_to64();
            if i + 1 < 63 {
                lemma_pow2_strictly_increases((i + 1) as nat, 63);
            }
            lemma_pow2_unfold(64);
        }
        r = r * 2;
        i = i + 1;
    }
    r
}

/// The numbers are ordered as their bit patterns are: sign first, then
/// magnitude.
pub proof fn law_order_follows_bits(x: Value, y: Value)
    ensures
        x.scaled() < y.scaled() <==> x.ordinal() < y.ordinal(),
        x.scaled() == y.scaled() <==> x.ordinal() == y.ordinal(),
{
    lemma_weight_orders(x.magnitude(), y.magnitude());
    lemma_weight_orders(0, x.magnitude());
    lemma_weight_orders(0, y.magnitude());
}

/// The results of a comparison are the numbers one and zero, and as indices
/// they are 1 and 0.
pub proof fn law_flags_are_one_and_zero()
    ensures
        Value::flag(true).scaled() == pow2(scale()),
        Value::flag(false).scaled() == 0,
        Value::flag(true).index() == Some(1usize),
        Value::flag(false).index() == Some(0usize),
        !Value::flag(true).zero(),
        Value::flag(false).zero(),
{
    lemma_one_scaled();
    lemma_pow2_pos(scale());
    lemma_mod_self_0(pow2(scale()) as int);
    lemma_div_by_self(pow2(scale()) as int);
    lemma_small_mod(0, pow2(scale()));
}

/// An index below `usize::MAX` is the number itself: the value is that many
/// times one.
pub proof fn law_index_is_the_number(x: Value)
    requires
        x.index() is Some,
        x.index()->0 < usize::MAX,
    ensures
        x.scaled_magnitude() == x.index()->0 * pow2(scale()),
        !x.nan(),
        !x.infinite(),
        x.scaled() >= 0,
{
    lemma_pow2_pos(scale());
    let unit = pow2(scale());
    let whole = x.scaled_magnitude() / unit;
    lemma_fundamental_div_mod(x.scaled_magnitude() as int, unit as int);
    lemma_mul_is_commutative(unit as int, whole as int);
    assert(x.index()->0 == whole);
}

/// Negation turns the number into its opposite and keeps a NaN a NaN.
pub proof fn law_opposite_negates(x: Value)
    ensures
        x.opposite().scaled() == -x.scaled(),
        x.opposite().nan() == x.nan(),
        x.opposite().opposite() == x,
{
}

/// A larger magnitude stands for a larger number, and only the magnitude zero
/// stands for zero.
proof fn lemma_weight_orders(a: nat, b: nat)
    ensures
        a < b <==> weight(a) < weight(b),
        a == b <==> weight(a) == weight(b),
        weight(0) == 0,
{
    if a < b {
        lemma_weight_increases(a, b);
    } else if b < a {
        lemma_weight_increases(b, a);
    }
}

/// A strictly larger magnitude has a strictly larger weight.
proof fn lemma_weight_increases(a: nat, b: nat)
    requires
        a < b,
    ensures
        weight(a) < weight(b),
{
    let span = FRACTION_SPAN as nat;
    let ea = a / span;
    let fa = a % span;
    let eb = b / span;
    let fb = b % span;
    lemma_fundamental_div_mod(a as int, span as int);
    lemma_fundamental_div_mod(b as int, span as int);
    lemma_div_is_ordered(a as int, b as int, span as int);
    assert(ea <= eb);
    if ea == eb {
        assert(fa < fb);
        if ea != 0 {
            let p = pow2((ea - 1) as nat);
            lemma_pow2_pos((ea - 1) as nat);
            assert((span + fa) * p < (span + fb) * p) by (nonlinear_arith)
                requires
                    fa < fb,
                    p > 0,
            ;
        }
    } else {
        let q = pow2((eb - 1) as nat);
        lemma_pow2_pos((eb - 1) as nat);
        assert(span * q <= (span + fb) * q) by (nonlinear_arith)
            requires
                q > 0,
                fb >= 0,
        ;
        if ea == 0 {
            assert(span * 1 <= span * q) by (nonlinear_arith)
                requires
                    q >= 1,
            ;
        } else {
            let p = pow2((ea - 1) as nat);
            lemma_pow2_pos((ea - 1) as nat);
            lemma_pow2_unfold(ea);
            if ea < eb - 1 {
                lemma_pow2_strictly_increases(ea, (eb - 1) as nat);
            }
            assert(pow2(ea) <= q);
            assert((span + fa) * p < span * (2 * p)) by (nonlinear_arith)
                requires
                    fa < span,
                    p > 0,
            ;
            assert(span * (2 * p) <= span * q) by (nonlinear_arith)
                requires
                    2 * p <= q,
            ;
        }
    }
}

/// The bit pattern `ONE_BITS` stands for the number one.
proof fn lemma_one_scaled()
    ensures
        weight(ONE_BITS as nat) == pow2(scale()),
        weight(0) == 0,
{
    lemma2_to64_rest();
    lemma_pow2_adds(52, 1022);
}

/// Which magnitudes stand for whole numbers, and for which.
proof fn lemma_index_cases(magnitude: nat)
    requires
        magnitude < SIGN_BIT,
    ensures
        ({
            let exponent = magnitude / (FRACTION_SPAN as nat);
            let significand = FRACTION_SPAN as nat + magnitude % (FRACTION_SPAN as nat);
            let unit = pow2(scale());
            &&& exponent <= 2047
            &&& exponent == 2047 <==> magnitude >= INFINITY_BITS
            &&& magnitude == 0 ==> weight(magnitude) % unit == 0 && weight(magnitude) / unit == 0
            &&& magnitude != 0 && exponent < 1023 ==> weight(magnitude) % unit != 0
            &&& 1023 <= exponent <= 1075 ==> {
                let divisor = pow2((1075 - exponent) as nat);
                &&& 0 < divisor <= FRACTION_SPAN
                &&& (weight(magnitude) % unit == 0 <==> significand % divisor == 0)
                &&& weight(magnitude) / unit == significand / divisor
            }
            &&& 1075 < exponent <= 2046 ==> {
                let factor = pow2((exponent - 1075) as nat);
                &&& weight(magnitude) % unit == 0
                &&& weight(magnitude) / unit == significand * factor
                &&& exponent <= 1086 ==> factor <= 2048 && significand * factor <= u64::MAX
                &&& exponent > 1086 ==> significand * factor > u64::MAX
            }
        }),
{
    let span = FRACTION_SPAN as nat;
    let exponent = magnitude / span;
    let fraction = magnitude % span;
    let significand = span + fraction;
    let unit = pow2(scale());
    lemma_fundamental_div_mod(magnitude as int, span as int);
    lemma2_to64();
    lemma2_to64_rest();
    lemma_pow2_pos(scale());
    assert(span == pow2(52));
    if exponent == 0 {
        lemma_pow2_strictly_increases(52, scale());
        lemma_small_mod(fraction, unit);
    } else if exponent < 1023 {
        let p = pow2((exponent - 1) as nat);
        lemma_pow2_pos((exponent - 1) as nat);
        lemma_pow2_adds(53, (exponent - 1) as nat);
        if 52 + exponent < scale() {
            lemma_pow2_strictly_increases(52 + exponent, scale());
        }
        assert(significand * p < pow2(53) * p) by (nonlinear_arith)
            requires
                significand < pow2(53),
                p > 0,
        ;
        assert(0 < significand * p) by (nonlinear_arith)
            requires
                significand > 0,
                p > 0,
        ;
        lemma_small_mod(significand * p, unit);
    } else if exponent <= 1075 {
        let p = pow2((exponent - 1) as nat);
        let shift = (1075 - exponent) as nat;
        let divisor = pow2(shift);
        lemma_pow2_pos((exponent - 1) as nat);
        lemma_pow2_pos(shift);
        lemma_pow2_adds((exponent - 1) as nat, shift);
        if shift < 52 {
            lemma_pow2_strictly_increases(shift, 52);
        }
        lemma_truncate_middle(significand as int, p as int, divisor as int);
        lemma_div_multiples_vanish_quotient(p as int, significand as int, divisor as int);
        lemma_mul_is_commutative(p as int, significand as int);
        let rest = significand % divisor;
        assert(p * rest == 0 <==> rest == 0) by (nonlinear_arith)
            requires
                p > 0,
                rest >= 0,
        ;
    } else if exponent <= 2046 {
        let shift = (exponent - 1075) as nat;
        let factor = pow2(shift);
        lemma_pow2_pos(shift);
        lemma_pow2_adds(shift, scale());
        assert(weight(magnitude) == (significand * factor) * unit) by (nonlinear_arith)
            requires
                weight(magnitude) == significand * (factor * unit),
        ;
        lemma_mod_multiples_basic((significand * factor) as int, unit as int);
        lemma_div_multiples_vanish((significand * factor) as int, unit as int);
        if exponent <= 1086 {
            if shift < 11 {
                lemma_pow2_strictly_increases(shift, 11);
            }
            assert(significand * factor < pow2(53) * 2048) by (nonlinear_arith)
                requires
                    significand < pow2(53),
                    0 < factor <= 2048,
            ;
        } else {
            if 12 < shift {
                lemma_pow2_strictly_increases(12, shift);
            }
            assert(significand * factor >= pow2(52) * 4096) by (nonlinear_arith)
                requires
                    significand >= pow2(52),
                    factor >= 4096,
            ;
        }
    } else {
        assert(magnitude >= 2047 * span);
    }
}

} // verus!
