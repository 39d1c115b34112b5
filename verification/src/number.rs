//! Double-precision numbers, held as their IEEE 754 bit pattern.
//!
//! The value of a finite number is described exactly, as an integer count of the
//! smallest positive double, `2^-1074`. In that unit every finite double is an
//! integer, and `1.0` is `2^1074`.

use vstd::arithmetic::power2::lemma_pow2_adds;
use vstd::arithmetic::power2::lemma_pow2_pos;
use vstd::arithmetic::power2::lemma_pow2_strictly_increases;
use vstd::arithmetic::power2::lemma_pow2_unfold;
use vstd::arithmetic::power2::pow2;
use vstd::prelude::*;

verus! {

/// The sign bit of a double, as a number: patterns from here on are negative.
pub const SIGN: u64 = 0x8000_0000_0000_0000;

/// The magnitude (pattern without its sign) of the infinities. Larger ones are NaN.
pub const INFINITE: u64 = 0x7ff0_0000_0000_0000;

/// `2^52`: the weight of the exponent field, and of the implicit leading digit.
pub const HIDDEN: u64 = 0x0010_0000_0000_0000;

/// A double-precision number, as its bit pattern.
#[derive(Clone, Copy, PartialEq, Eq, Structural, Debug)]
pub struct Number {
    pub bits: u64,
}

/// The magnitude with pattern `magnitude`, counted in units of `2^-1074`.
pub open spec fn scaled_magnitude(magnitude: int) -> int {
    let exponent = magnitude / (HIDDEN as int);
    let fraction = magnitude % (HIDDEN as int);
    if exponent == 0 {
        fraction
    } else {
        (HIDDEN + fraction) * pow2((exponent - 1) as nat)
    }
}

pub open spec fn distance(a: int, b: int) -> int {
    if a <= b {
        b - a
    } else {
        a - b
    }
}

impl Number {
    /// `-1.0`
    pub open spec fn spec_minus_one() -> Number {
        Number { bits: 0xbff0_0000_0000_0000 }
    }

    /// `0.0`
    pub open spec fn spec_zero() -> Number {
        Number { bits: 0 }
    }

    /// `1.0`
    pub open spec fn spec_one() -> Number {
        Number { bits: 0x3ff0_0000_0000_0000 }
    }

    /// `-1.0`
    #[verifier::when_used_as_spec(spec_minus_one)]
    pub fn minus_one() -> (number: Number)
        ensures
            number == Number::spec_minus_one(),
    {
        Number { bits: 0xbff0_0000_0000_0000 }
    }

    /// `0.0`
    #[verifier::when_used_as_spec(spec_zero)]
    pub fn zero() -> (number: Number)
        ensures
            number == Number::spec_zero(),
    {
        Number { bits: 0 }
    }

    /// `1.0`
    #[verifier::when_used_as_spec(spec_one)]
    pub fn one() -> (number: Number)
        ensures
            number == Number::spec_one(),
    {
        Number { bits: 0x3ff0_0000_0000_0000 }
    }

    /// Whether the sign bit is set.
    pub open spec fn is_signed(self) -> bool {
        self.bits >= SIGN
    }

    /// The pattern without its sign bit.
    pub open spec fn magnitude(self) -> int {
        if self.is_signed() {
            self.bits - SIGN
        } else {
            self.bits as int
        }
    }

    pub open spec fn is_nan(self) -> bool {
        self.magnitude() > INFINITE
    }

    pub open spec fn spec_is_infinite(self) -> bool {
        self.magnitude() == INFINITE
    }

    pub open spec fn is_finite(self) -> bool {
        self.magnitude() < INFINITE
    }

    /// Whether the number is below zero. Neither `-0.0` nor NaN is.
    pub open spec fn spec_is_negative(self) -> bool {
        self.is_signed() && 0 < self.magnitude() <= INFINITE
    }

    /// The number with its sign changed.
    pub open spec fn opposite(self) -> Number {
        if self.is_signed() {
            Number { bits: (self.bits - SIGN) as u64 }
        } else {
            Number { bits: (self.bits + SIGN) as u64 }
        }
    }

    /// The value of a finite number, counted in units of `2^-1074`.
    pub open spec fn scaled(self) -> int {
        if self.is_signed() {
            -scaled_magnitude(self.magnitude())
        } else {
            scaled_magnitude(self.magnitude())
        }
    }

    /// Whether this finite number is `exact` rounded to nearest, ties to even.
    pub open spec fn rounds(self, exact: int) -> bool {
        // No finite number is closer,
        &&& forall|other: Number| #[trigger]
            other.is_finite() ==> distance(self.scaled(), exact) <= distance(
                other.scaled(),
                exact,
            )
        // and between two that are equally close, the even one is taken.
        &&& forall|other: Number| #[trigger]
            other.is_finite() && other.scaled() != self.scaled() && distance(self.scaled(), exact)
                == distance(other.scaled(), exact) ==> self.bits % 2 == 0
    }

    /// Whether `sum` is this number plus one, as IEEE 754 defines it.
    pub open spec fn one_more(self, sum: Number) -> bool {
        if self.is_nan() {
            // The same NaN, made quiet.
            sum.bits == (if self.magnitude() % (HIDDEN as int) < HIDDEN / 2 {
                self.bits + HIDDEN / 2
            } else {
                self.bits as int
            })
        } else if self.spec_is_infinite() {
            sum == self
        } else {
            &&& sum.is_finite()
            &&& sum.rounds(self.scaled() + pow2(1074))
            // An exact zero is positive.
            &&& sum.scaled() == 0 ==> sum.bits == 0
        }
    }

    /// This number plus one.
    pub open spec fn plus_one(self) -> Number {
        choose|sum: Number| self.one_more(sum)
    }

    /// Whether the number is one of the infinities.
    #[verifier::when_used_as_spec(spec_is_infinite)]
    pub fn is_infinite(self) -> (infinite: bool)
        ensures
            infinite == self.spec_is_infinite(),
    {
        self.bits == INFINITE || self.bits == SIGN + INFINITE
    }

    /// Whether the number is below zero.
    #[verifier::when_used_as_spec(spec_is_negative)]
    pub fn is_negative(self) -> (negative: bool)
        ensures
            negative == self.spec_is_negative(),
    {
        self.bits > SIGN && self.bits - SIGN <= INFINITE
    }

    /// Changes the sign of a number.
    pub fn negate(self) -> (negated: Number)
        ensures
            negated == self.opposite(),
    {
        if self.bits >= SIGN {
            Number { bits: self.bits - SIGN }
        } else {
            Number { bits: self.bits + SIGN }
        }
    }
}

/// Larger magnitudes stand for larger values.
proof fn lemma_scaled_magnitude_increases(a: int, b: int)
    requires
        0 <= a < b,
    ensures
        0 <= scaled_magnitude(a) < scaled_magnitude(b),
{
    let h = HIDDEN as int;
    let (ea, fa) = (a / h, a % h);
    let (eb, fb) = (b / h, b % h);
    assert(ea <= eb);
    if ea == eb {
        assert(fa < fb);
        if ea > 0 {
            lemma_pow2_pos((ea - 1) as nat);
            assert(0 <= (h + fa) * pow2((ea - 1) as nat) < (h + fb) * pow2((ea - 1) as nat))
                by (nonlinear_arith)
                requires
                    0 <= fa < fb,
                    h > 0,
                    pow2((ea - 1) as nat) > 0,
            ;
        }
    } else {
        lemma_pow2_pos((eb - 1) as nat);
        let pb = pow2((eb - 1) as nat) as int;
        assert((h + fb) * pb >= h * pb && h * pb >= h) by (nonlinear_arith)
            requires
                fb >= 0,
                h > 0,
                pb >= 1,
        ;
        if ea > 0 {
            let pa = pow2((ea - 1) as nat) as int;
            lemma_pow2_pos((ea - 1) as nat);
            lemma_pow2_unfold(ea as nat);
            assert(pow2(ea as nat) == 2 * pa);
            if ea < eb - 1 {
                lemma_pow2_strictly_increases(ea as nat, (eb - 1) as nat);
            }
            assert(pb >= 2 * pa);
            assert(0 <= (h + fa) * pa && (h + fa) * pa < h * pb) by (nonlinear_arith)
                requires
                    0 <= fa < h,
                    pa > 0,
                    pb >= 2 * pa,
            ;
        }
    }
}

/// The magnitude that a full significand and an exponent make up.
proof fn lemma_scaled_magnitude_of(significand: int, exponent: int)
    requires
        exponent >= 1,
        HIDDEN <= significand <= 2 * HIDDEN,
    ensures
        scaled_magnitude((exponent - 1) * HIDDEN + significand) == significand * pow2(
            (exponent - 1) as nat,
        ),
{
    let h = HIDDEN as int;
    let m = (exponent - 1) * h + significand;
    if significand < 2 * h {
        assert(m == exponent * h + (significand - h));
        assert(m / h == exponent && m % h == significand - h) by (nonlinear_arith)
            requires
                m == exponent * h + (significand - h),
                0 <= significand - h < h,
                h > 0,
        ;
    } else {
        assert(m == (exponent + 1) * h);
        assert(m / h == exponent + 1 && m % h == 0) by (nonlinear_arith)
            requires
                m == (exponent + 1) * h,
                h > 0,
        ;
        lemma_pow2_unfold(exponent as nat);
        let p = pow2((exponent - 1) as nat);
        assert(h * (2 * p) == (2 * h) * p) by (nonlinear_arith);
    }
}

/// A positive number rounds every value that lies between its neighbours and
/// closer to it than to them.
proof fn lemma_rounds_between(rounded: Number, low: int, exact: int)
    requires
        rounded.is_finite(),
        !rounded.is_signed(),
        0 <= low,
        scaled_magnitude(low) <= exact <= scaled_magnitude(low + 1),
        ({
            let below = exact - scaled_magnitude(low);
            let above = scaled_magnitude(low + 1) - exact;
            ||| rounded.magnitude() == low && (below < above || (below == above && low % 2 == 0))
            ||| rounded.magnitude() == low + 1 && (above < below || (above == below && low % 2
                == 1))
        }),
    ensures
        rounded.rounds(exact),
{
    let a = scaled_magnitude(low);
    let b = scaled_magnitude(low + 1);
    lemma_scaled_magnitude_increases(low, low + 1);
    assert forall|other: Number| #[trigger] other.is_finite() implies other.scaled() <= a
        || other.scaled() >= b by {
        let m = other.magnitude();
        if m > 0 {
            lemma_scaled_magnitude_increases(0, m);
        }
        if !other.is_signed() {
            if m < low {
                lemma_scaled_magnitude_increases(m, low);
            } else if m > low + 1 {
                lemma_scaled_magnitude_increases(low + 1, m);
            }
        }
    }
}

/// Rounding to nearest treats both signs alike.
proof fn lemma_rounds_opposite(rounded: Number, exact: int)
    requires
        rounded.is_finite(),
        rounded.rounds(exact),
    ensures
        rounded.opposite().is_finite(),
        rounded.opposite().rounds(-exact),
{
    let mirrored = rounded.opposite();
    assert(mirrored.scaled() == -rounded.scaled());
    assert forall|other: Number| #[trigger] other.is_finite() implies {
        &&& distance(mirrored.scaled(), -exact) <= distance(other.scaled(), -exact)
        &&& other.scaled() != mirrored.scaled() && distance(mirrored.scaled(), -exact) == distance(
            other.scaled(),
            -exact,
        ) ==> mirrored.bits % 2 == 0
    } by {
        let o = other.opposite();
        assert(o.is_finite());
        assert(o.scaled() == -other.scaled());
    }
}

/// There is only one number that is one more than another.
pub proof fn lemma_one_more_is_unique(number: Number, first: Number, second: Number)
    requires
        number.one_more(first),
        number.one_more(second),
    ensures
        first == second,
{
    if number.is_finite() {
        let exact = number.scaled() + pow2(1074);
        if first.scaled() == second.scaled() {
            lemma_scaled_determines(first, second);
        } else if first.scaled() < second.scaled() {
            assert(first.bits % 2 == 0 && second.bits % 2 == 0);
            lemma_no_tie(first, second, exact);
        } else {
            assert(first.bits % 2 == 0 && second.bits % 2 == 0);
            lemma_no_tie(second, first, exact);
        }
    }
}

/// The value of a finite number determines its pattern, but for the sign of zero.
proof fn lemma_scaled_determines(first: Number, second: Number)
    requires
        first.is_finite(),
        second.is_finite(),
        first.scaled() == second.scaled(),
        first.scaled() == 0 ==> first.bits == 0,
        second.scaled() == 0 ==> second.bits == 0,
    ensures
        first == second,
{
    let (m, n) = (first.magnitude(), second.magnitude());
    if m > 0 {
        lemma_scaled_magnitude_increases(0, m);
    }
    if n > 0 {
        lemma_scaled_magnitude_increases(0, n);
    }
    if m < n {
        lemma_scaled_magnitude_increases(m, n);
    } else if n < m {
        lemma_scaled_magnitude_increases(n, m);
    }
}

/// Two different even numbers are not both nearest to one value: some number lies
/// strictly between them.
proof fn lemma_no_tie(low: Number, high: Number, exact: int)
    requires
        low.is_finite(),
        high.is_finite(),
        low.scaled() < high.scaled(),
        low.bits % 2 == 0,
        high.bits % 2 == 0,
        low.scaled() == 0 ==> low.bits == 0,
        high.scaled() == 0 ==> high.bits == 0,
    ensures
        !(low.rounds(exact) && high.rounds(exact)),
{
    let (m, n) = (low.magnitude(), high.magnitude());
    if m > 0 {
        lemma_scaled_magnitude_increases(0, m);
    }
    if n > 0 {
        lemma_scaled_magnitude_increases(0, n);
    }
    let between = if low.is_signed() && high.is_signed() {
        if m < n {
            lemma_scaled_magnitude_increases(m, n);
        }
        lemma_scaled_magnitude_increases(n, n + 1);
        lemma_scaled_magnitude_increases(n + 1, m);
        Number { bits: (high.bits + 1) as u64 }
    } else if !low.is_signed() && !high.is_signed() {
        if n < m {
            lemma_scaled_magnitude_increases(n, m);
        }
        lemma_scaled_magnitude_increases(m, m + 1);
        lemma_scaled_magnitude_increases(m + 1, n);
        Number { bits: (low.bits + 1) as u64 }
    } else if high.bits == 0 {
        lemma_scaled_magnitude_increases(1, m);
        Number { bits: (SIGN + 1) as u64 }
    } else {
        Number { bits: 0 }
    };
    assert(between.is_finite());
    assert(low.scaled() < between.scaled() < high.scaled());
}

/// The products that rounding compares, all taken times `scale`.
proof fn lemma_quotient_products(total: int, divisor: int, scale: int)
    requires
        total >= 0,
        divisor > 0,
        scale > 0,
    ensures
        ({
            let quotient = total / divisor;
            let remainder = total % divisor;
            let low = quotient * (divisor * scale);
            &&& total * scale - low == remainder * scale
            &&& (quotient + 1) * (divisor * scale) - total * scale == (divisor - remainder) * scale
            &&& 0 <= remainder < divisor
            &&& remainder * scale >= 0
            &&& 2 * remainder < divisor <==> remainder * scale < (divisor - remainder) * scale
            &&& 2 * remainder == divisor <==> remainder * scale == (divisor - remainder) * scale
        }),
{
    let q = total / divisor;
    let r = total % divisor;
    assert(total == q * divisor + r && 0 <= r < divisor) by (nonlinear_arith)
        requires
            q == total / divisor,
            r == total % divisor,
            divisor > 0,
    ;
    assert(total * scale - q * (divisor * scale) == r * scale) by (nonlinear_arith)
        requires
            total == q * divisor + r,
    ;
    assert((q + 1) * (divisor * scale) - total * scale == (divisor - r) * scale)
        by (nonlinear_arith)
        requires
            total == q * divisor + r,
    ;
    assert(r * scale >= 0 && (2 * r < divisor <==> r * scale < (divisor - r) * scale) && (2 * r
        == divisor <==> r * scale == (divisor - r) * scale)) by (nonlinear_arith)
        requires
            0 <= r < divisor,
            scale > 0,
    ;
}

/// Rounds `total` units, a unit being the spacing of the numbers with biased
/// exponent `unit`.
fn round_total(total: u128, unit: u64) -> (rounded: Number)
    requires
        0 < total < 0x1000_0000_0000_0000_0000_0000_0000,
        100 <= unit <= 1100,
    ensures
        !rounded.is_signed(),
        rounded.is_finite(),
        rounded.rounds(total * pow2((unit - 1) as nat)),
        rounded.scaled() > 0,
{
    proof {
        vstd::arithmetic::power2::lemma2_to64();
        vstd::arithmetic::power2::lemma2_to64_rest();
        lemma_pow2_adds(54, 54);
    }
    // The number of binary digits of `total`, and two to that power.
    let mut length: u64 = 1;
    let mut power: u128 = 2;
    while power <= total
        invariant
            power == pow2(length as nat),
            power <= 2 * total,
            1 <= length <= 108,
            total < 0x1000_0000_0000_0000_0000_0000_0000,
            pow2(108) == 0x1000_0000_0000_0000_0000_0000_0000,
        decreases 108 - length,
    {
        proof {
            lemma_pow2_unfold((length + 1) as nat);
        }
        power = power * 2;
        length = length + 1;
    }
    let ghost scale = pow2((unit - 1) as nat) as int;
    proof {
        lemma_pow2_pos((unit - 1) as nat);
    }
    let full: u128 = 2 * (HIDDEN as u128);
    if length <= 53 {
        // The total fits a significand.
        let factor: u128 = full / power;
        let exponent: u64 = unit - (53 - length);
        proof {
            lemma_pow2_adds((53 - length) as nat, length as nat);
            let f = pow2((53 - length) as nat) as int;
            assert(f * power == full);
            assert(full as int / power as int == f) by (nonlinear_arith)
                requires
                    f * power == full,
                    power > 0,
            ;
            assert(HIDDEN <= total * f < full) by (nonlinear_arith)
                requires
                    f * power == full,
                    full == 2 * HIDDEN,
                    power <= 2 * total,
                    total < power,
                    f > 0,
            ;
            lemma_scaled_magnitude_of(total * f, exponent as int);
            lemma_pow2_adds((53 - length) as nat, (exponent - 1) as nat);
            let e = pow2((exponent - 1) as nat) as int;
            assert((total * f) * e == total * (f * e)) by (nonlinear_arith);
        }
        let significand: u64 = (total * factor) as u64;
        let rounded = Number { bits: (exponent - 1) * HIDDEN + significand };
        proof {
            let low = rounded.magnitude();
            lemma_scaled_magnitude_increases(low, low + 1);
            lemma_scaled_magnitude_increases(0, low);
            lemma_rounds_between(rounded, low, total * scale);
        }
        rounded
    } else {
        let divisor: u128 = power / full;
        let exponent: u64 = unit + (length - 53);
        let ghost d = pow2((length - 53) as nat) as int;
        proof {
            lemma_pow2_pos((length - 53) as nat);
            lemma_pow2_adds(53, (length - 53) as nat);
            assert(full * d == power);
            assert(power as int / full as int == d) by (nonlinear_arith)
                requires
                    full * d == power,
                    full > 0,
            ;
        }
        let quotient: u128 = total / divisor;
        let remainder: u128 = total % divisor;
        proof {
            lemma_pow2_adds((length - 53) as nat, (unit - 1) as nat);
            assert(HIDDEN <= quotient < full) by (nonlinear_arith)
                requires
                    quotient == total / divisor,
                    full * divisor == power,
                    full == 2 * HIDDEN,
                    power <= 2 * total,
                    total < power,
                    divisor > 0,
            ;
            lemma_quotient_products(total as int, d, scale);
            lemma_scaled_magnitude_of(quotient as int, exponent as int);
            lemma_scaled_magnitude_of(quotient + 1, exponent as int);
            lemma_pow2_unfold((length - 53) as nat);
        }
        let low: u64 = (exponent - 1) * HIDDEN + quotient as u64;
        let half: u128 = divisor / 2;
        let rounded = if remainder > half || (remainder == half && quotient % 2 == 1) {
            Number { bits: low + 1 }
        } else {
            Number { bits: low }
        };
        proof {
            lemma_scaled_magnitude_increases(0, low as int);
            lemma_scaled_magnitude_increases(low as int, low + 1);
            lemma_rounds_between(rounded, low as int, total * scale);
        }
        rounded
    }
}

impl Number {
    /// Adds one to a number, rounding to nearest with ties to even.
    pub fn add_one(self) -> (sum: Number)
        ensures
            self.one_more(sum),
            sum == self.plus_one(),
    {
        let signed = self.bits >= SIGN;
        let magnitude: u64 = if signed {
            self.bits - SIGN
        } else {
            self.bits
        };
        let exponent: u64 = magnitude / HIDDEN;
        let fraction: u64 = magnitude % HIDDEN;
        let sum = if magnitude > INFINITE {
            if fraction < HIDDEN / 2 {
                Number { bits: self.bits + HIDDEN / 2 }
            } else {
                self
            }
        } else if magnitude == INFINITE {
            self
        } else if exponent >= 1077 {
            // One is less than half of the way to either neighbour.
            proof {
                self.lemma_one_is_small();
            }
            self
        } else if exponent < 969 {
            // The number is less than half of the way from one to either neighbour.
            proof {
                self.lemma_number_is_small();
            }
            Number { bits: 1023 * HIDDEN }
        } else {
            self.add_one_aligned()
        };
        proof {
            lemma_one_more_is_unique(self, sum, self.plus_one());
        }
        sum
    }

    /// Adds one to a number of similar size.
    fn add_one_aligned(self) -> (sum: Number)
        requires
            self.is_finite(),
            969 <= self.magnitude() / (HIDDEN as int) < 1077,
        ensures
            self.one_more(sum),
    {
        let signed = self.bits >= SIGN;
        let magnitude: u64 = if signed {
            self.bits - SIGN
        } else {
            self.bits
        };
        let exponent: u64 = magnitude / HIDDEN;
        let significand: u128 = (HIDDEN + magnitude % HIDDEN) as u128;
        // The number and one, both counted in units of the smaller spacing.
        let unit: u64 = if exponent < 1075 {
            exponent
        } else {
            1075
        };
        let units: u128 = if exponent == 1076 {
            2 * significand
        } else {
            significand
        };
        let mut one: u128 = 1;
        let mut next: u64 = unit;
        proof {
            vstd::arithmetic::power2::lemma2_to64();
            vstd::arithmetic::power2::lemma2_to64_rest();
            lemma_pow2_adds(53, 53);
        }
        while next < 1075
            invariant
                969 <= unit <= next <= 1075,
                one == pow2((next - unit) as nat),
                pow2(106) == 0x400_0000_0000_0000_0000_0000_0000,
            decreases 1075 - next,
        {
            proof {
                lemma_pow2_unfold((next + 1 - unit) as nat);
                if next + 1 - unit < 106 {
                    lemma_pow2_strictly_increases((next + 1 - unit) as nat, 106);
                }
            }
            one = one * 2;
            next = next + 1;
        }
        let ghost scale = pow2((unit - 1) as nat) as int;
        proof {
            lemma_pow2_pos((unit - 1) as nat);
            if 1075 - unit < 106 {
                lemma_pow2_strictly_increases((1075 - unit) as nat, 106);
            }
            lemma_pow2_adds((1075 - unit) as nat, (unit - 1) as nat);
            assert(one * scale == pow2(1074));
            if exponent == 1076 {
                lemma_pow2_unfold(1075);
                assert((2 * significand) * scale == significand * (2 * scale)) by (nonlinear_arith);
            }
            assert(scaled_magnitude(magnitude as int) == units * scale);
            assert((units + one) * scale == units * scale + one * scale) by (nonlinear_arith);
            assert((one - units) * scale == one * scale - units * scale) by (nonlinear_arith);
            assert((units - one) * scale == units * scale - one * scale) by (nonlinear_arith);
        }
        if !signed {
            round_total(units + one, unit)
        } else if one > units {
            round_total(one - units, unit)
        } else if one < units {
            let rounded = round_total(units - one, unit);
            proof {
                lemma_rounds_opposite(rounded, (units - one) * scale);
            }
            rounded.negate()
        } else {
            proof {
                lemma_rounds_between(Number { bits: 0 }, 0, 0);
            }
            Number { bits: 0 }
        }
    }

    /// One changes no number from `2^54` on.
    proof fn lemma_one_is_small(self)
        requires
            self.is_finite(),
            self.magnitude() / (HIDDEN as int) >= 1077,
        ensures
            self.rounds(self.scaled() + pow2(1074)),
            self.scaled() != 0,
    {
        let h = HIDDEN as int;
        let m = self.magnitude();
        let (e, f) = (m / h, m % h);
        let p = pow2((e - 1) as nat) as int;
        let one = pow2(1074) as int;
        lemma_pow2_pos(1074);
        lemma_pow2_unfold(1075);
        lemma_pow2_unfold(1076);
        lemma_pow2_unfold((e - 1) as nat);
        if e > 1077 {
            lemma_pow2_strictly_increases(1076, (e - 1) as nat);
        }
        let a = scaled_magnitude(m);
        assert(m == (e - 1) * h + (h + f));
        lemma_scaled_magnitude_increases(0, m);
        if !self.is_signed() {
            lemma_scaled_magnitude_of(h + f + 1, e);
            assert((h + f + 1) * p == (h + f) * p + p) by (nonlinear_arith);
            lemma_rounds_between(self, m, a + one);
        } else {
            let positive = self.opposite();
            if f > 0 {
                lemma_scaled_magnitude_of(h + f - 1, e);
                assert((h + f - 1) * p == (h + f) * p - p) by (nonlinear_arith);
            } else {
                let half = pow2((e - 2) as nat) as int;
                assert(m - 1 == (e - 2) * h + (2 * h - 1));
                lemma_scaled_magnitude_of(2 * h - 1, e - 1);
                assert((2 * h - 1) * half == h * (2 * half) - half) by (nonlinear_arith);
                assert(m % 2 == 0);
            }
            lemma_rounds_between(positive, m - 1, a - one);
            lemma_rounds_opposite(positive, a - one);
        }
    }

    /// A number below `2^-54` does not change one.
    proof fn lemma_number_is_small(self)
        requires
            self.magnitude() / (HIDDEN as int) < 969,
        ensures
            (Number { bits: (1023 * HIDDEN) as u64 }).rounds(self.scaled() + pow2(1074)),
            (Number { bits: (1023 * HIDDEN) as u64 }).scaled() != 0,
    {
        let h = HIDDEN as int;
        let m = self.magnitude();
        let d = scaled_magnitude(m);
        let rounded = Number { bits: (1023 * HIDDEN) as u64 };
        vstd::arithmetic::power2::lemma2_to64_rest();
        lemma_pow2_adds(52, 1022);
        lemma_pow2_adds(52, 968);
        lemma_pow2_pos(1020);
        lemma_pow2_unfold(1021);
        lemma_pow2_unfold(1022);
        lemma_pow2_unfold(1023);
        lemma_scaled_magnitude_of(h, 1023);
        lemma_scaled_magnitude_of(h + 1, 1023);
        lemma_scaled_magnitude_of(2 * h - 1, 1022);
        lemma_scaled_magnitude_of(h, 969);
        lemma_scaled_magnitude_increases(m, 969 * h);
        let one = pow2(1074) as int;
        let q = pow2(1022) as int;
        let r = pow2(1021) as int;
        assert((h + 1) * q == h * q + q) by (nonlinear_arith);
        assert((2 * h - 1) * r == h * (2 * r) - r) by (nonlinear_arith);
        if self.is_signed() && d > 0 {
            lemma_rounds_between(rounded, 1023 * h - 1, one - d);
        } else {
            lemma_rounds_between(rounded, 1023 * h, one + d);
        }
    }
}

/// Numbers whose value is an integer.
impl Number {
    /// Whether the number is exactly the integer `value`.
    pub open spec fn has_value(self, value: int) -> bool {
        self.is_finite() && self.scaled() == value * pow2(1074)
    }
}

/// Where a number plus one is itself a number, adding one is exact.
pub proof fn exact_sum_is_kept(number: Number, sum: Number)
    requires
        number.is_finite(),
        sum.is_finite(),
        sum.scaled() == number.scaled() + pow2(1074),
        sum.scaled() == 0 ==> sum.bits == 0,
    ensures
        number.plus_one() == sum,
{
    assert(number.one_more(sum));
    lemma_one_more_is_unique(number, sum, number.plus_one());
}

/// Adding one to an integer gives the next integer, from `-2^53` to `2^53`.
pub proof fn integers_count_up(number: Number, value: int)
    requires
        number.has_value(value),
        -2 * HIDDEN <= value < 2 * HIDDEN,
    ensures
        number.plus_one().has_value(value + 1),
{
    let unit = pow2(1074) as int;
    lemma_pow2_pos(1074);
    assert((value + 1) * unit == value * unit + unit) by (nonlinear_arith);
    if value == -1 {
        exact_sum_is_kept(number, Number { bits: 0 });
    } else {
        let size = if value < 0 {
            -(value + 1)
        } else {
            value + 1
        };
        assert(size * unit > 0) by (nonlinear_arith)
            requires
                size > 0,
                unit > 0,
        ;
        assert(size * unit >= HIDDEN) by {
            lemma_pow2_adds(52, 1022);
            vstd::arithmetic::power2::lemma2_to64_rest();
            lemma_pow2_pos(1022);
            assert(size * unit >= HIDDEN) by (nonlinear_arith)
                requires
                    size >= 1,
                    unit == HIDDEN * pow2(1022),
                    pow2(1022) >= 1,
            ;
        }
        let magnitude = lemma_integer_is_a_number(size, 1075);
        let positive = Number { bits: magnitude as u64 };
        assert(positive.scaled() == size * unit);
        if value < 0 {
            assert(positive.opposite().scaled() == -positive.scaled());
            assert((value + 1) * unit == -(size * unit)) by (nonlinear_arith)
                requires
                    size == -(value + 1),
            ;
            exact_sum_is_kept(number, positive.opposite());
        } else {
            exact_sum_is_kept(number, positive);
        }
    }
}

/// The magnitude of a number whose significand is short.
proof fn lemma_integer_is_a_number(significand: int, exponent: int) -> (magnitude: int)
    requires
        1 <= exponent <= 1075,
        0 < significand <= 2 * HIDDEN,
        significand * pow2((exponent - 1) as nat) >= HIDDEN,
    ensures
        0 < magnitude < INFINITE,
        scaled_magnitude(magnitude) == significand * pow2((exponent - 1) as nat),
    decreases exponent,
{
    if significand >= HIDDEN {
        lemma_scaled_magnitude_of(significand, exponent);
        (exponent - 1) * HIDDEN + significand
    } else {
        vstd::arithmetic::power2::lemma2_to64();
        if exponent == 1 {
            assert(significand * pow2(0) == significand) by (nonlinear_arith)
                requires
                    pow2(0) == 1,
            ;
        }
        lemma_pow2_unfold((exponent - 1) as nat);
        let p = pow2((exponent - 2) as nat) as int;
        assert((2 * significand) * p == significand * (2 * p)) by (nonlinear_arith);
        lemma_integer_is_a_number(2 * significand, exponent - 1)
    }
}

/// The patterns of the numbers that are named.
pub proof fn named_numbers_have_their_value()
    ensures
        Number::zero() == (Number { bits: 0 }),
        Number::one() == (Number { bits: 0x3ff0_0000_0000_0000 }),
        Number::minus_one() == (Number { bits: 0xbff0_0000_0000_0000 }),
        Number::zero().has_value(0),
        Number::one().has_value(1),
        Number::minus_one().has_value(-1),
{
    vstd::arithmetic::power2::lemma2_to64_rest();
    lemma_pow2_adds(52, 1022);
}

/// What a pattern stands for: the smallest is zero, each step up adds `2^-1074` times
/// two to the power of its exponent field less one (of zero, for the two lowest
/// fields), and the sign bit changes the sign and nothing else.
pub proof fn values_grow_step_by_step(bits: u64)
    requires
        bits < 0x7ff0_0000_0000_0000,
    ensures
        (Number { bits: 0 }).scaled() == 0,
        (Number { bits: (bits + 1) as u64 }).scaled() - (Number { bits }).scaled() == pow2(
            (if bits < 0x0020_0000_0000_0000 {
                0
            } else {
                bits / 0x0010_0000_0000_0000 - 1
            }) as nat,
        ),
        (Number { bits: (bits + 0x8000_0000_0000_0000) as u64 }).scaled() == -(Number {
            bits,
        }).scaled(),
{
    let h = HIDDEN as int;
    let m = bits as int;
    let (e, f) = (m / h, m % h);
    vstd::arithmetic::power2::lemma2_to64();
    if e == 0 {
        if f + 1 == h {
            assert((m + 1) / h == 1 && (m + 1) % h == 0);
            assert((h + 0) * pow2(0) == h) by (nonlinear_arith)
                requires
                    pow2(0) == 1,
            ;
        } else {
            assert((m + 1) / h == 0 && (m + 1) % h == f + 1);
        }
    } else {
        let p = pow2((e - 1) as nat) as int;
        assert(m == (e - 1) * h + (h + f));
        lemma_scaled_magnitude_of(h + f + 1, e);
        assert((h + f + 1) * p == (h + f) * p + p) by (nonlinear_arith);
    }
}

/// The infinities, the numbers below zero and the opposite of a number, over patterns.
pub proof fn signs_are_read_from_patterns(number: Number)
    ensures
        number.is_infinite() <==> number.bits == 0x7ff0_0000_0000_0000 || number.bits
            == 0xfff0_0000_0000_0000,
        number.is_negative() <==> 0x8000_0000_0000_0000 < number.bits <= 0xfff0_0000_0000_0000,
        number.opposite().opposite() == number,
        number.opposite().bits == (if number.bits < 0x8000_0000_0000_0000 {
            number.bits + 0x8000_0000_0000_0000
        } else {
            number.bits - 0x8000_0000_0000_0000
        }),
{
}

/// One more than a finite number is a finite number, no finite number is closer to the
/// exact sum, of two that are equally close it is the even one, and it is not a
/// negative zero.
pub proof fn one_more_is_the_nearest_number(number: Number, sum: Number, other: Number)
    requires
        number.bits % 0x8000_0000_0000_0000 < 0x7ff0_0000_0000_0000,
        other.bits % 0x8000_0000_0000_0000 < 0x7ff0_0000_0000_0000,
        number.one_more(sum),
    ensures
        sum.bits % 0x8000_0000_0000_0000 < 0x7ff0_0000_0000_0000,
        sum.bits != 0x8000_0000_0000_0000,
        ({
            let exact = number.scaled() + pow2(1074);
            let error = if sum.scaled() < exact {
                exact - sum.scaled()
            } else {
                sum.scaled() - exact
            };
            let other_error = if other.scaled() < exact {
                exact - other.scaled()
            } else {
                other.scaled() - exact
            };
            &&& error <= other_error
            &&& error == other_error && other.scaled() != sum.scaled() ==> sum.bits % 2 == 0
        }),
        number.plus_one() == sum,
{
    assert(other.is_finite());
    lemma_one_more_is_unique(number, sum, number.plus_one());
}

/// One more than an infinity is the same infinity, and one more than a NaN is that NaN
/// with its quiet bit set.
pub proof fn one_more_keeps_infinities_and_nan(number: Number, sum: Number)
    requires
        number.bits % 0x8000_0000_0000_0000 >= 0x7ff0_0000_0000_0000,
        number.one_more(sum),
    ensures
        sum.bits == (if number.bits % 0x8000_0000_0000_0000 == 0x7ff0_0000_0000_0000 || number.bits
            % 0x0010_0000_0000_0000 >= 0x0008_0000_0000_0000 {
            number.bits as int
        } else {
            number.bits + 0x0008_0000_0000_0000
        }),
        number.plus_one() == sum,
{
    lemma_one_more_is_unique(number, sum, number.plus_one());
}

} // verus!
