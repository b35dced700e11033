//! Numbers with a mantissa of 24 bits, rounded to the nearest after every operation and
//! to an even mantissa where two numbers are as near. Scores of content candidates and
//! positions of the bar are computed in them, so that they are the same on every machine.
//!
//! Exponents are not limited but for a bound that none of these numbers comes near.

use vstd::prelude::*;

use crate::numeric::min_int;

verus! {

/// The smallest mantissa above those of the format.
pub const MANTISSA_END: u32 = 0x100_0000;

/// The smallest mantissa of a number other than zero.
pub const MANTISSA_START: u32 = 0x80_0000;

/// Largest absolute exponent.
pub const EXPONENT_LIMIT: i64 = 0x100_0000_0000;

/// A number: `mantissa` times two to the power of `exponent`, or its negative. Operations
/// bring their operands to 24 bits first, so that any mantissa has a meaning.
#[derive(Clone, Copy, Debug, PartialEq, Eq, Structural)]
pub struct Single {
    pub negative: bool,
    pub mantissa: u32,
    pub exponent: i64,
}

/// Two to the power of `power`.
pub open spec fn two_to(power: nat) -> nat
    decreases power,
{
    if power == 0 {
        1
    } else {
        2 * two_to((power - 1) as nat)
    }
}

/// The natural number nearest to a quotient, the even one where two are as near.
pub open spec fn nearest_quotient(value: nat, divisor: nat) -> nat {
    let whole = value / divisor;
    let rest = value % divisor;
    if 2 * rest > divisor || (2 * rest == divisor && whole % 2 == 1) {
        whole + 1
    } else {
        whole
    }
}

/// Number of binary digits of `value` beyond 24.
pub open spec fn digits_over(value: nat) -> nat
    decreases value,
{
    if value < MANTISSA_END {
        0
    } else {
        1 + digits_over(value / 2)
    }
}

/// Number of binary digits that `value` lacks to 24.
pub open spec fn digits_under(value: nat) -> nat
    decreases MANTISSA_END - value,
{
    if value == 0 || value >= MANTISSA_START {
        0
    } else {
        1 + digits_under(2 * value)
    }
}

pub open spec fn bounded(exponent: int) -> i64 {
    if exponent > EXPONENT_LIMIT {
        EXPONENT_LIMIT
    } else if exponent < -EXPONENT_LIMIT {
        (-EXPONENT_LIMIT) as i64
    } else {
        exponent as i64
    }
}

/// Zero.
pub open spec fn zero() -> Single {
    Single { negative: false, mantissa: 0, exponent: 0 }
}

/// The number with a mantissa of up to 24 bits, or the next power of two.
pub open spec fn packed(negative: bool, mantissa: nat, exponent: int) -> Single {
    if mantissa == 0 {
        zero()
    } else if mantissa >= MANTISSA_END {
        Single { negative, mantissa: MANTISSA_START, exponent: bounded(exponent + 1) }
    } else {
        Single { negative, mantissa: mantissa as u32, exponent: bounded(exponent) }
    }
}

/// The number nearest to `value` times two to the power of `exponent`.
pub open spec fn rounded(negative: bool, value: nat, exponent: int) -> Single {
    if value == 0 {
        zero()
    } else if value < MANTISSA_END {
        let shift = digits_under(value);
        packed(negative, value * two_to(shift), exponent - shift)
    } else {
        let shift = digits_over(value);
        packed(negative, nearest_quotient(value, two_to(shift)), exponent + shift)
    }
}

/// The number nearest to a natural number.
pub open spec fn whole(value: nat) -> Single {
    rounded(false, value, 0)
}

/// The number nearest to the quotient of two natural numbers, each taken by the number
/// nearest to it.
pub open spec fn fraction(value: nat, divisor: nat) -> Single {
    whole(value).over(whole(divisor))
}

/// The largest natural number whose square is not above `value`.
pub open spec fn is_floor_root(value: nat, root: nat) -> bool {
    root * root <= value < (root + 1) * (root + 1)
}

impl Single {
    /// The number has the form that every operation gives.
    pub open spec fn is_canonical(self) -> bool {
        &&& -EXPONENT_LIMIT <= self.exponent <= EXPONENT_LIMIT
        &&& self == zero() || MANTISSA_START <= self.mantissa < MANTISSA_END
    }

    /// The same number, with 24 bits.
    pub open spec fn canonical(self) -> Single {
        rounded(self.negative, self.mantissa as nat, self.exponent as int)
    }

    /// The number in units of two to the power of `exponent`, which is not above its own.
    pub open spec fn units(self, exponent: int) -> int {
        let size = self.mantissa * two_to((self.exponent - exponent) as nat);
        if self.negative {
            -size
        } else {
            size as int
        }
    }

    pub open spec fn negated(self) -> Single {
        let number = self.canonical();
        if number.mantissa == 0 {
            number
        } else {
            Single { negative: !number.negative, ..number }
        }
    }

    pub open spec fn absolute(self) -> Single {
        Single { negative: false, ..self.canonical() }
    }

    #[verifier::opaque]
    pub open spec fn times(self, other: Single) -> Single {
        let a = self.canonical();
        let b = other.canonical();
        rounded(
            a.negative != b.negative,
            (a.mantissa * b.mantissa) as nat,
            a.exponent + b.exponent,
        )
    }

    /// The quotient; zero where the divisor is zero.
    #[verifier::opaque]
    pub open spec fn over(self, other: Single) -> Single {
        let a = self.canonical();
        let b = other.canonical();
        if a.mantissa == 0 || b.mantissa == 0 {
            zero()
        } else if a.mantissa >= b.mantissa {
            packed(
                a.negative != b.negative,
                nearest_quotient((a.mantissa * MANTISSA_START) as nat, b.mantissa as nat),
                a.exponent - b.exponent - 23,
            )
        } else {
            packed(
                a.negative != b.negative,
                nearest_quotient((a.mantissa * MANTISSA_END) as nat, b.mantissa as nat),
                a.exponent - b.exponent - 24,
            )
        }
    }

    #[verifier::opaque]
    pub open spec fn plus(self, other: Single) -> Single {
        let a = self.canonical();
        let b = other.canonical();
        if a.mantissa == 0 {
            b
        } else if b.mantissa == 0 {
            a
        } else {
            let low = if a.exponent <= b.exponent {
                a.exponent as int
            } else {
                b.exponent as int
            };
            let sum = a.units(low) + b.units(low);
            rounded(
                sum < 0,
                (if sum < 0 {
                    -sum
                } else {
                    sum
                }) as nat,
                low,
            )
        }
    }

    pub open spec fn minus(self, other: Single) -> Single {
        self.plus(other.negated())
    }

    /// The square root; zero where the number is not positive.
    #[verifier::opaque]
    pub open spec fn root(self) -> Single {
        let a = self.canonical();
        if a.mantissa == 0 || a.negative {
            zero()
        } else {
            let shift: int = if (a.exponent - 23) % 2 == 0 {
                23
            } else {
                24
            };
            let scaled = (a.mantissa * two_to(shift as nat)) as nat;
            let floor = choose|floor: nat| is_floor_root(scaled, floor);
            packed(
                false,
                if scaled - floor * floor > floor {
                    floor + 1
                } else {
                    floor
                },
                (a.exponent - shift) / 2,
            )
        }
    }

    /// The number is smaller than another one.
    #[verifier::opaque]
    pub open spec fn less(self, other: Single) -> bool {
        let a = self.canonical();
        let b = other.canonical();
        let low = if a.exponent <= b.exponent {
            a.exponent as int
        } else {
            b.exponent as int
        };
        a.units(low) < b.units(low)
    }

    pub open spec fn at_least(self, other: Single) -> bool {
        !self.less(other)
    }

    pub open spec fn smaller(self, other: Single) -> Single {
        if other.less(self) {
            other.canonical()
        } else {
            self.canonical()
        }
    }

    pub open spec fn larger(self, other: Single) -> Single {
        if self.less(other) {
            other.canonical()
        } else {
            self.canonical()
        }
    }

    /// The number held inside a range.
    pub open spec fn held(self, low: Single, high: Single) -> Single {
        self.larger(low).smaller(high)
    }

    /// The natural number nearest to a number, the larger one where two are as near; zero
    /// for negative numbers.
    #[verifier::opaque]
    pub open spec fn nearest_natural(self) -> nat {
        let a = self.canonical();
        if a.negative {
            0
        } else if a.exponent >= 0 {
            (a.mantissa * two_to(a.exponent as nat)) as nat
        } else {
            let unit = two_to((-a.exponent) as nat);
            ((2 * a.mantissa + unit) / (2 * unit as int)) as nat
        }
    }
}

proof fn lemma_two_to_grows(power: nat)
    ensures
        two_to(power) >= power + 1,
    decreases power,
{
    if power > 0 {
        lemma_two_to_grows((power - 1) as nat);
    }
}

proof fn lemma_two_to_adds(left: nat, right: nat)
    ensures
        two_to(left + right) == two_to(left) * two_to(right),
    decreases left,
{
    if left > 0 {
        lemma_two_to_adds((left - 1) as nat, right);
        let a = two_to((left - 1) as nat);
        let b = two_to(right);
        assert(2 * (a * b) == (2 * a) * b) by (nonlinear_arith);
        assert(((left - 1) as nat) + right == (left + right - 1) as nat);
    } else {
        assert(1 * two_to(right) == two_to(right));
    }
}

proof fn lemma_two_to_monotone(left: nat, right: nat)
    requires
        left <= right,
    ensures
        two_to(left) <= two_to(right),
    decreases right,
{
    if left < right {
        lemma_two_to_monotone(left, (right - 1) as nat);
    }
}

proof fn lemma_two_to_constants()
    ensures
        two_to(23) == MANTISSA_START,
        two_to(24) == MANTISSA_END,
        two_to(26) == 0x400_0000,
        two_to(40) == 0x100_0000_0000,
{
    reveal_with_fuel(two_to, 42);
}

/// A value of more than 24 binary digits has 24 left once the digits beyond are dropped.
proof fn lemma_digits_over(value: nat)
    requires
        value >= MANTISSA_END,
    ensures
        MANTISSA_START <= value / two_to(digits_over(value)) < MANTISSA_END,
        digits_over(value) >= 1,
    decreases value,
{
    let half = value / 2;
    let rest = digits_over(half);
    lemma_two_to_grows(rest);
    if half >= MANTISSA_END {
        lemma_digits_over(half);
        vstd::arithmetic::div_mod::lemma_div_denominator(
            value as int,
            2,
            two_to(rest) as int,
        );
    } else {
        assert(rest == 0);
        assert(two_to(1) == 2) by {
            reveal_with_fuel(two_to, 2);
        }
    }
    assert(digits_over(value) == 1 + rest);
    assert(two_to(digits_over(value)) == 2 * two_to(rest));
}

/// A value of fewer than 24 binary digits has 24 once the digits that it lacks are added.
proof fn lemma_digits_under(value: nat)
    requires
        0 < value < MANTISSA_END,
    ensures
        MANTISSA_START <= value * two_to(digits_under(value)) < MANTISSA_END,
        digits_under(value) < MANTISSA_END,
    decreases MANTISSA_END - value,
{
    if value < MANTISSA_START {
        let doubled = 2 * value;
        let rest = digits_under(doubled);
        lemma_digits_under(doubled);
        let power = two_to(rest);
        assert(value * (2 * power) == (2 * value) * power) by (nonlinear_arith);
        lemma_two_to_grows(digits_under(value));
        let grown = two_to(digits_under(value));
        assert(grown <= value * grown) by (nonlinear_arith)
            requires
                value >= 1,
        ;
    } else {
        assert(value * 1 == value);
    }
}

proof fn lemma_few_digits_over(value: nat)
    requires
        MANTISSA_END <= value < 0x1_0000_0000_0000_0000_0000_0000_0000,
    ensures
        digits_over(value) <= 112,
{
    let shift = digits_over(value);
    let unit = two_to(shift);
    lemma_digits_over(value);
    lemma_two_to_grows(shift);
    vstd::arithmetic::div_mod::lemma_fundamental_div_mod(value as int, unit as int);
    let quotient = value / unit;
    assert(unit <= unit * quotient) by (nonlinear_arith)
        requires
            quotient >= 1,
    ;
    if shift > 112 {
        lemma_two_to_monotone(112, shift);
        lemma_two_to_adds(56, 56);
        assert(two_to(56) == 0x100_0000_0000_0000) by {
            reveal_with_fuel(two_to, 58);
        }
        assert(0x100_0000_0000_0000 * 0x100_0000_0000_0000
            == 0x1_0000_0000_0000_0000_0000_0000_0000);
    }
}

proof fn lemma_nearest_quotient(value: nat, divisor: nat, low: nat, high: nat)
    requires
        divisor > 0,
        low <= value / divisor < high,
    ensures
        low <= nearest_quotient(value, divisor) <= high,
{
}

/// Whatever is rounded has the form that every operation gives.
proof fn lemma_rounded_is_canonical(negative: bool, value: nat, exponent: int)
    ensures
        rounded(negative, value, exponent).is_canonical(),
{
    if value > 0 && value < MANTISSA_END {
        lemma_digits_under(value);
    } else if value > 0 {
        lemma_digits_over(value);
        lemma_two_to_grows(digits_over(value));
        lemma_nearest_quotient(
            value,
            two_to(digits_over(value)),
            MANTISSA_START as nat,
            MANTISSA_END as nat,
        );
    }
}

/// A number in that form is kept by rounding.
/// A number in the form that every operation gives is not changed.
pub proof fn lemma_canonical_is_kept(number: Single)
    requires
        number.is_canonical(),
    ensures
        number.canonical() == number,
{
    if number.mantissa > 0 {
        assert(digits_under(number.mantissa as nat) == 0);
        assert(number.mantissa * 1 == number.mantissa);
    }
}

fn bound(exponent: i64) -> (result: i64)
    ensures
        result == bounded(exponent as int),
{
    if exponent > EXPONENT_LIMIT {
        EXPONENT_LIMIT
    } else if exponent < -EXPONENT_LIMIT {
        -EXPONENT_LIMIT
    } else {
        exponent
    }
}

fn pack(negative: bool, mantissa: u32, exponent: i64) -> (result: Single)
    requires
        exponent < i64::MAX,
    ensures
        result == packed(negative, mantissa as nat, exponent as int),
{
    if mantissa == 0 {
        Single { negative: false, mantissa: 0, exponent: 0 }
    } else if mantissa >= MANTISSA_END {
        Single { negative, mantissa: MANTISSA_START, exponent: bound(exponent + 1) }
    } else {
        Single { negative, mantissa, exponent: bound(exponent) }
    }
}

fn round(negative: bool, value: u128, exponent: i64) -> (result: Single)
    requires
        value < 0x1_0000_0000_0000_0000_0000_0000_0000,
        -0x1000_0000_0000 <= exponent <= 0x1000_0000_0000,
    ensures
        result == rounded(negative, value as nat, exponent as int),
        result.is_canonical(),
{
    proof {
        lemma_rounded_is_canonical(negative, value as nat, exponent as int);
    }
    if value == 0 {
        return Single { negative: false, mantissa: 0, exponent: 0 };
    }
    if value < MANTISSA_END as u128 {
        let mut mantissa: u32 = value as u32;
        let mut shift: i64 = 0;
        assert(two_to(0) == 1);
        assert(value * 1 == value);
        while mantissa < MANTISSA_START
            invariant
                0 < mantissa < MANTISSA_END,
                0 <= shift < mantissa,
                mantissa == value * two_to(shift as nat),
                digits_under(value as nat) == shift + digits_under(mantissa as nat),
            decreases MANTISSA_END - mantissa,
        {
            proof {
                let power = two_to(shift as nat);
                assert(2 * (value * power) == value * (2 * power)) by (nonlinear_arith);
                assert(two_to((shift + 1) as nat) == 2 * power);
            }
            mantissa = mantissa * 2;
            shift += 1;
        }
        return pack(negative, mantissa, exponent - shift);
    }
    proof {
        lemma_digits_over(value as nat);
        lemma_few_digits_over(value as nat);
        assert(two_to(0) == 1);
    }
    let mut rest_value: u128 = value;
    let mut unit: u128 = 1;
    let mut shift: i64 = 0;
    while rest_value >= MANTISSA_END as u128
        invariant
            unit == two_to(shift as nat),
            0 <= shift < unit,
            shift <= 112,
            unit * rest_value <= value,
            rest_value >= 1,
            value < 0x1_0000_0000_0000_0000_0000_0000_0000,
            shift + digits_over(rest_value as nat) == digits_over(value as nat),
            digits_over(value as nat) <= 112,
        decreases rest_value,
    {
        let half: u128 = rest_value / 2;
        proof {
            let u = unit as int;
            let r = rest_value as int;
            assert((2 * u) * half <= u * r) by (nonlinear_arith)
                requires
                    2 * half <= r,
                    u >= 0,
            ;
            assert(2 * u <= (2 * u) * half) by (nonlinear_arith)
                requires
                    half >= 1,
                    u >= 0,
            ;
            assert(two_to((shift + 1) as nat) == 2 * two_to(shift as nat));
        }
        unit = unit * 2;
        rest_value = half;
        shift += 1;
    }
    proof {
        let u = unit as int;
        let r = rest_value as int;
        assert(u <= u * r) by (nonlinear_arith)
            requires
                r >= 1,
                u >= 0,
        ;
        assert(digits_over(rest_value as nat) == 0);
        assert(shift == digits_over(value as nat));
        lemma_nearest_quotient(
            value as nat,
            unit as nat,
            MANTISSA_START as nat,
            MANTISSA_END as nat,
        );
    }
    let quotient: u128 = value / unit;
    let rest: u128 = value % unit;
    let mantissa: u32 = if 2 * rest > unit || (2 * rest == unit && quotient % 2 == 1) {
        quotient as u32 + 1
    } else {
        quotient as u32
    };
    pack(negative, mantissa, exponent + shift)
}

/// Exponents far beyond the bound are all the same.
proof fn lemma_far_exponents(negative: bool, value: nat, first: int, second: int)
    requires
        value <= u32::MAX,
        (first >= 0x200_0000_0000 && second >= 0x200_0000_0000) || (first <= -0x200_0000_0000
            && second <= -0x200_0000_0000),
    ensures
        rounded(negative, value, first) == rounded(negative, value, second),
{
    if value > 0 && value < MANTISSA_END {
        lemma_digits_under(value);
    } else if value > 0 {
        lemma_few_digits_over(value);
    }
}

/// A value between these powers of two has this many digits beyond 24.
proof fn lemma_count_digits_over(value: nat, shift: nat)
    requires
        shift >= 1,
        MANTISSA_START * two_to(shift) <= value < MANTISSA_END * two_to(shift),
    ensures
        digits_over(value) == shift,
    decreases shift,
{
    let smaller = two_to((shift - 1) as nat);
    let start = MANTISSA_START as int;
    let end = MANTISSA_END as int;
    lemma_two_to_grows((shift - 1) as nat);
    assert(start * (2 * smaller) == 2 * (start * smaller)) by (nonlinear_arith);
    assert(end * (2 * smaller) == 2 * (end * smaller)) by (nonlinear_arith);
    assert(end * smaller >= end) by (nonlinear_arith)
        requires
            smaller >= 1,
            end >= 0,
    ;
    assert(start * smaller * 2 == end * smaller) by (nonlinear_arith)
        requires
            end == 2 * start,
    ;
    let half = value / 2;
    assert(start * smaller <= half < end * smaller);
    if shift == 1 {
        assert(smaller == 1);
        assert(digits_over(half) == 0);
    } else {
        lemma_count_digits_over(half, (shift - 1) as nat);
    }
}

proof fn lemma_divide(value: int, unit: int, quotient: int, rest: int)
    requires
        value == quotient * unit + rest,
        0 <= rest < unit,
    ensures
        value / unit == quotient,
        value % unit == rest,
{
    assert(unit * quotient == quotient * unit) by (nonlinear_arith);
    vstd::arithmetic::div_mod::lemma_fundamental_div_mod_converse(value, unit, quotient, rest);
}

/// Adding or taking away far less than half of the last digit changes nothing.
proof fn lemma_small_part_is_lost(large: Single, small: int, distance: nat)
    requires
        large.is_canonical(),
        large.mantissa > 0,
        distance > 40,
        -(MANTISSA_END as int) < small < MANTISSA_END,
    ensures
        large.mantissa * two_to(distance) + small > 0,
        rounded(
            large.negative,
            (large.mantissa * two_to(distance) + small) as nat,
            large.exponent - distance,
        ) == large,
{
    let unit = two_to(distance) as int;
    let m = large.mantissa as int;
    let start = MANTISSA_START as int;
    let end = MANTISSA_END as int;
    lemma_two_to_constants();
    lemma_two_to_monotone(40, (distance - 1) as nat);
    let half = two_to((distance - 1) as nat) as int;
    assert(unit == 2 * half);
    let total = m * unit + small;
    assert(start * unit <= m * unit <= (end - 1) * unit) by (nonlinear_arith)
        requires
            start <= m <= end - 1,
            unit >= 0,
    ;
    assert((end - 1) * unit == end * unit - unit) by (nonlinear_arith);
    assert(start * unit >= unit) by (nonlinear_arith)
        requires
            start >= 1,
            unit >= 0,
    ;
    if total >= start * unit {
        lemma_count_digits_over(total as nat, distance);
        if small >= 0 {
            lemma_divide(total, unit, m, small);
        } else {
            assert((m - 1) * unit == m * unit - unit) by (nonlinear_arith);
            lemma_divide(total, unit, m - 1, unit + small);
        }
        assert(nearest_quotient(total as nat, unit as nat) == m);
    } else {
        assert(m == start) by {
            if m > start {
                assert(m * unit >= (start + 1) * unit) by (nonlinear_arith)
                    requires
                        m >= start + 1,
                        unit >= 0,
                ;
                assert((start + 1) * unit == start * unit + unit) by (nonlinear_arith);
            }
        }
        assert(start * (2 * half) == end * half) by (nonlinear_arith)
            requires
                end == 2 * start,
        ;
        assert((end - 1) * half == end * half - half) by (nonlinear_arith);
        assert(start * half <= (end - 1) * half) by (nonlinear_arith)
            requires
                start <= end - 1,
                half >= 0,
        ;
        lemma_count_digits_over(total as nat, (distance - 1) as nat);
        lemma_divide(total, half, end - 1, half + small);
        assert(nearest_quotient(total as nat, half as nat) == end);
    }
    assert(total >= MANTISSA_END) by {
        assert(start * unit >= start * 4) by (nonlinear_arith)
            requires
                unit >= 4,
                start >= 0,
        ;
    }
}

/// A number far larger than another one is their sum.
proof fn lemma_larger_is_the_sum(large: Single, small: Single)
    requires
        large.is_canonical(),
        small.is_canonical(),
        large.mantissa > 0,
        small.mantissa > 0,
        large.exponent - small.exponent > 40,
    ensures
        large.plus(small) == large,
        small.plus(large) == large,
{
    reveal(Single::plus);
    lemma_canonical_is_kept(large);
    lemma_canonical_is_kept(small);
    let distance = (large.exponent - small.exponent) as nat;
    let low = small.exponent as int;
    assert(two_to(0) == 1);
    assert(small.mantissa * 1 == small.mantissa);
    let m = small.mantissa as int;
    let part = if small.negative == large.negative {
        m
    } else {
        -m
    };
    lemma_small_part_is_lost(large, part, distance);
    assert(large.units(low) + small.units(low) == if large.negative {
        -(large.mantissa * two_to(distance) + part)
    } else {
        large.mantissa * two_to(distance) + part
    });
}

proof fn lemma_floor_root_is_unique(value: nat, first: nat, second: nat)
    requires
        is_floor_root(value, first),
        is_floor_root(value, second),
    ensures
        first == second,
{
    if first < second {
        assert((first + 1) * (first + 1) <= second * second) by (nonlinear_arith)
            requires
                first + 1 <= second,
        ;
    }
    if second < first {
        assert((second + 1) * (second + 1) <= first * first) by (nonlinear_arith)
            requires
                second + 1 <= first,
        ;
    }
}

fn power(exponent: u64) -> (result: u64)
    requires
        exponent <= 41,
    ensures
        result == two_to(exponent as nat),
        1 <= result <= 0x200_0000_0000,
{
    let mut result: u64 = 1;
    let mut i: u64 = 0;
    proof {
        lemma_two_to_constants();
        lemma_two_to_grows(exponent as nat);
        assert(two_to(41) == 0x200_0000_0000) by {
            reveal_with_fuel(two_to, 43);
        }
        lemma_two_to_monotone(exponent as nat, 41);
    }
    while i < exponent
        invariant
            i <= exponent <= 41,
            result == two_to(i as nat),
            two_to(41) == 0x200_0000_0000,
        decreases exponent - i,
    {
        proof {
            lemma_two_to_monotone(i as nat, 40);
            lemma_two_to_monotone((i + 1) as nat, 41);
            assert(two_to((i + 1) as nat) == 2 * two_to(i as nat));
        }
        result = result * 2;
        i += 1;
    }
    result
}

/// The number nearest to an integer.
pub fn from_int(value: u64) -> (result: Single)
    ensures
        result == whole(value as nat),
        result.is_canonical(),
{
    round(false, value as u128, 0)
}

/// The number nearest to a quotient of two integers, each taken by the number nearest to
/// it.
pub fn ratio(value: u64, divisor: u64) -> (result: Single)
    ensures
        result == fraction(value as nat, divisor as nat),
        result.is_canonical(),
{
    from_int(value).div(from_int(divisor))
}

impl Single {
    /// Brings the number to 24 bits.
    pub fn canon(self) -> (result: Single)
        ensures
            result == self.canonical(),
            result.is_canonical(),
    {
        if self.mantissa >= MANTISSA_START && self.mantissa < MANTISSA_END && self.exponent
            <= EXPONENT_LIMIT && self.exponent >= -EXPONENT_LIMIT {
            proof {
                lemma_canonical_is_kept(self);
            }
            return self;
        }
        let exponent: i64 = if self.exponent > 0x200_0000_0000 {
            0x200_0000_0000
        } else if self.exponent < -0x200_0000_0000 {
            -0x200_0000_0000
        } else {
            self.exponent
        };
        proof {
            if self.exponent != exponent {
                lemma_far_exponents(
                    self.negative,
                    self.mantissa as nat,
                    self.exponent as int,
                    exponent as int,
                );
            }
        }
        round(self.negative, self.mantissa as u128, exponent)
    }

    pub fn neg(self) -> (result: Single)
        ensures
            result == self.negated(),
            result.is_canonical(),
    {
        let number = self.canon();
        if number.mantissa == 0 {
            number
        } else {
            Single {
                negative: !number.negative,
                mantissa: number.mantissa,
                exponent: number.exponent,
            }
        }
    }

    pub fn abs(self) -> (result: Single)
        ensures
            result == self.absolute(),
            result.is_canonical(),
    {
        let number = self.canon();
        Single { negative: false, mantissa: number.mantissa, exponent: number.exponent }
    }

    pub fn mul(self, other: Single) -> (result: Single)
        ensures
            result == self.times(other),
            result.is_canonical(),
    {
        reveal(Single::times);
        let a = self.canon();
        let b = other.canon();
        proof {
            let x = a.mantissa as int;
            let y = b.mantissa as int;
            assert(0 <= x * y <= u32::MAX * u32::MAX) by (nonlinear_arith)
                requires
                    0 <= x <= u32::MAX,
                    0 <= y <= u32::MAX,
            ;
        }
        let product: u64 = a.mantissa as u64 * b.mantissa as u64;
        round(a.negative != b.negative, product as u128, a.exponent + b.exponent)
    }

    pub fn div(self, other: Single) -> (result: Single)
        ensures
            result == self.over(other),
            result.is_canonical(),
    {
        reveal(Single::over);
        let a = self.canon();
        let b = other.canon();
        if a.mantissa == 0 || b.mantissa == 0 {
            return Single { negative: false, mantissa: 0, exponent: 0 };
        }
        let negative = a.negative != b.negative;
        let divisor: u64 = b.mantissa as u64;
        assert(a.mantissa * MANTISSA_START <= a.mantissa * MANTISSA_END <= MANTISSA_END
            * MANTISSA_END) by (nonlinear_arith)
            requires
                a.mantissa < MANTISSA_END,
                MANTISSA_START <= MANTISSA_END,
        ;
        let (scaled, exponent): (u64, i64) = if a.mantissa >= b.mantissa {
            (a.mantissa as u64 * MANTISSA_START as u64, a.exponent - b.exponent - 23)
        } else {
            (a.mantissa as u64 * MANTISSA_END as u64, a.exponent - b.exponent - 24)
        };
        let quotient: u64 = scaled / divisor;
        let rest: u64 = scaled % divisor;
        proof {
            let m = a.mantissa as int;
            let n = b.mantissa as int;
            let start = MANTISSA_START as int;
            let end = MANTISSA_END as int;
            vstd::arithmetic::div_mod::lemma_fundamental_div_mod(scaled as int, n);
            if m >= n {
                assert(m * start < n * end) by (nonlinear_arith)
                    requires
                        m < 2 * n,
                        end == 2 * start,
                        start > 0,
                ;
                assert(m * start >= n * start) by (nonlinear_arith)
                    requires
                        m >= n,
                        start >= 0,
                ;
            } else {
                assert(m * end < n * end) by (nonlinear_arith)
                    requires
                        m < n,
                        end > 0,
                ;
                assert(m * end >= n * start) by (nonlinear_arith)
                    requires
                        2 * m >= n,
                        end == 2 * start,
                        start >= 0,
                ;
            }
            assert(quotient < end) by (nonlinear_arith)
                requires
                    n * quotient <= scaled,
                    scaled < n * end,
                    n > 0,
            ;
            assert(n * (quotient + 1) == n * quotient + n) by (nonlinear_arith);
            assert(quotient >= start) by (nonlinear_arith)
                requires
                    scaled < n * (quotient + 1),
                    scaled >= n * start,
                    n > 0,
            ;
        }
        let mantissa: u32 = if 2 * rest > divisor || (2 * rest == divisor && quotient % 2 == 1) {
            quotient as u32 + 1
        } else {
            quotient as u32
        };
        pack(negative, mantissa, exponent)
    }

    fn plus_exact(self, other: Single) -> (result: Single)
        requires
            self.is_canonical(),
            other.is_canonical(),
            self.mantissa > 0,
            other.mantissa > 0,
            0 <= self.exponent - other.exponent <= 40,
        ensures
            result == self.plus(other),
            result == other.plus(self),
            result.is_canonical(),
    {
        reveal(Single::plus);
        let distance: u64 = (self.exponent - other.exponent) as u64;
        let unit: u64 = power(distance);
        proof {
            lemma_canonical_is_kept(self);
            lemma_canonical_is_kept(other);
            assert(two_to(0) == 1);
            let m = self.mantissa as int;
            let u = unit as int;
            assert(0 <= m * u <= MANTISSA_END * 0x200_0000_0000) by (nonlinear_arith)
                requires
                    0 <= m <= MANTISSA_END,
                    0 <= u <= 0x200_0000_0000,
            ;
        }
        let large: u128 = self.mantissa as u128 * unit as u128;
        let small: u128 = other.mantissa as u128;
        proof {
            let low = other.exponent as int;
            assert(other.mantissa * 1 == other.mantissa);
            assert(self.units(low) == if self.negative {
                -(large as int)
            } else {
                large as int
            });
            assert(other.units(low) == if other.negative {
                -(small as int)
            } else {
                small as int
            });
        }
        if self.negative == other.negative {
            round(self.negative, large + small, other.exponent)
        } else if large >= small {
            if large == small {
                return Single { negative: false, mantissa: 0, exponent: 0 };
            }
            round(self.negative, large - small, other.exponent)
        } else {
            round(other.negative, small - large, other.exponent)
        }
    }

    pub fn add(self, other: Single) -> (result: Single)
        ensures
            result == self.plus(other),
            result.is_canonical(),
    {
        reveal(Single::plus);
        let a = self.canon();
        let b = other.canon();
        proof {
            lemma_canonical_is_kept(a);
            lemma_canonical_is_kept(b);
        }
        if a.mantissa == 0 {
            return b;
        }
        if b.mantissa == 0 {
            return a;
        }
        if a.exponent >= b.exponent {
            if a.exponent - b.exponent > 40 {
                proof {
                    lemma_larger_is_the_sum(a, b);
                }
                return a;
            }
            a.plus_exact(b)
        } else {
            if b.exponent - a.exponent > 40 {
                proof {
                    lemma_larger_is_the_sum(b, a);
                }
                return b;
            }
            b.plus_exact(a)
        }
    }

    pub fn sub(self, other: Single) -> (result: Single)
        ensures
            result == self.minus(other),
            result.is_canonical(),
    {
        self.add(other.neg())
    }

    pub fn sqrt(self) -> (result: Single)
        ensures
            result == self.root(),
            result.is_canonical(),
    {
        reveal(Single::root);
        let a = self.canon();
        if a.mantissa == 0 || a.negative {
            return Single { negative: false, mantissa: 0, exponent: 0 };
        }
        let raised: i64 = a.exponent + 0x400_0000_0000;
        let shift: i64 = if (raised - 23) % 2 == 0 { 23 } else { 24 };
        let factor: u64 = power(shift as u64);
        proof {
            lemma_two_to_constants();
        }
        let scaled: u64 = a.mantissa as u64 * factor;
        let mut low: u64 = 0;
        let mut high: u64 = 0x100_0001;
        while high - low > 1
            invariant
                low < high <= 0x100_0001,
                low * low <= scaled < high * high,
                scaled < 0x1_0000_0000_0000,
            decreases high - low,
        {
            let middle: u64 = low + (high - low) / 2;
            proof {
                let m = middle as int;
                assert(0 <= m * m <= 0x100_0001 * 0x100_0001) by (nonlinear_arith)
                    requires
                        0 <= m <= 0x100_0001,
                ;
            }
            if middle * middle <= scaled {
                low = middle;
            } else {
                high = middle;
            }
        }
        let ghost floor = choose|floor: nat| is_floor_root(scaled as nat, floor);
        proof {
            assert(is_floor_root(scaled as nat, low as nat));
            lemma_floor_root_is_unique(scaled as nat, low as nat, floor);
            let m = low as int;
            assert(m < 0x100_0000) by (nonlinear_arith)
                requires
                    m * m <= scaled,
                    scaled < 0x100_0000 * 0x100_0000,
                    m >= 0,
            ;
            assert(m >= 0x80_0000) by (nonlinear_arith)
                requires
                    (m + 1) * (m + 1) > scaled,
                    scaled >= 0x80_0000 * 0x80_0000,
                    m >= 0,
            ;
        }
        let rest: u64 = scaled - low * low;
        let mantissa: u32 = if rest > low { low as u32 + 1 } else { low as u32 };
        let exponent: i64 = (raised - shift) / 2 - 0x200_0000_0000;
        pack(false, mantissa, exponent)
    }

    pub fn lt(self, other: Single) -> (result: bool)
        ensures
            result == self.less(other),
    {
        reveal(Single::less);
        let a = self.canon();
        let b = other.canon();
        let ghost low = if a.exponent <= b.exponent {
            a.exponent as int
        } else {
            b.exponent as int
        };
        proof {
            lemma_units_sign(a, low);
            lemma_units_sign(b, low);
        }
        if a.mantissa == 0 {
            return b.mantissa > 0 && !b.negative;
        }
        if b.mantissa == 0 {
            return a.negative;
        }
        if a.negative != b.negative {
            return a.negative;
        }
        proof {
            if a.exponent < b.exponent {
                lemma_exponent_decides(a, b);
            } else if a.exponent > b.exponent {
                lemma_exponent_decides(b, a);
            } else {
                assert(two_to(0) == 1);
                assert(a.mantissa * 1 == a.mantissa);
                assert(b.mantissa * 1 == b.mantissa);
            }
        }
        let smaller = if a.exponent != b.exponent {
            a.exponent < b.exponent
        } else {
            a.mantissa < b.mantissa
        };
        let larger = if a.exponent != b.exponent {
            a.exponent > b.exponent
        } else {
            a.mantissa > b.mantissa
        };
        if a.negative {
            larger
        } else {
            smaller
        }
    }

    pub fn ge(self, other: Single) -> (result: bool)
        ensures
            result == self.at_least(other),
    {
        !self.lt(other)
    }

    pub fn min(self, other: Single) -> (result: Single)
        ensures
            result == self.smaller(other),
            result.is_canonical(),
    {
        if other.lt(self) {
            other.canon()
        } else {
            self.canon()
        }
    }

    pub fn max(self, other: Single) -> (result: Single)
        ensures
            result == self.larger(other),
            result.is_canonical(),
    {
        if self.lt(other) {
            other.canon()
        } else {
            self.canon()
        }
    }

    pub fn clamp(self, low: Single, high: Single) -> (result: Single)
        ensures
            result == self.held(low, high),
            result.is_canonical(),
    {
        self.max(low).min(high)
    }

    /// Rounds to the nearest integer, as far as it fits in 32 bits.
    pub fn to_nearest(self) -> (result: u32)
        ensures
            result == min_int(self.nearest_natural() as int, u32::MAX as int),
    {
        reveal(Single::nearest_natural);
        let a = self.canon();
        if a.negative || a.mantissa == 0 {
            proof {
                if a.mantissa == 0 {
                    lemma_two_to_grows(0);
                    assert(0 * two_to(a.exponent as nat) == 0);
                }
            }
            return 0;
        }
        if a.exponent >= 0 {
            if a.exponent > 40 {
                proof {
                    lemma_two_to_constants();
                    lemma_two_to_monotone(40, a.exponent as nat);
                    let m = a.mantissa as int;
                    let u = two_to(a.exponent as nat) as int;
                    assert(m * u >= u) by (nonlinear_arith)
                        requires
                            m >= 1,
                            u >= 0,
                    ;
                }
                return u32::MAX;
            }
            let unit: u64 = power(a.exponent as u64);
            proof {
                let m = a.mantissa as int;
                let u = unit as int;
                assert(0 <= m * u <= MANTISSA_END * 0x200_0000_0000) by (nonlinear_arith)
                    requires
                        0 <= m <= MANTISSA_END,
                        0 <= u <= 0x200_0000_0000,
                ;
            }
            let value: u128 = a.mantissa as u128 * unit as u128;
            if value > 0xffff_ffff {
                u32::MAX
            } else {
                value as u32
            }
        } else {
            if a.exponent < -40 {
                proof {
                    lemma_two_to_constants();
                    lemma_two_to_monotone(40, (-a.exponent) as nat);
                    let unit = two_to((-a.exponent) as nat) as int;
                    lemma_divide(2 * a.mantissa + unit, 2 * unit, 0, 2 * a.mantissa + unit);
                }
                return 0;
            }
            let unit: u64 = power((-a.exponent) as u64);
            let result: u64 = (2 * a.mantissa as u64 + unit) / (2 * unit);
            proof {
                lemma_two_to_constants();
                assert(two_to(1) == 2) by {
                    reveal_with_fuel(two_to, 2);
                }
                lemma_two_to_monotone(1, (-a.exponent) as nat);
                let x = 2 * a.mantissa + unit;
                let y = 2 * unit as int;
                vstd::arithmetic::div_mod::lemma_div_is_ordered_by_denominator(x, 1, y);
                assert(x / y <= x / 1);
                vstd::arithmetic::div_mod::lemma_fundamental_div_mod(x, y);
                let q = x / y;
                assert(q <= a.mantissa) by (nonlinear_arith)
                    requires
                        y * q <= x,
                        x == 2 * a.mantissa + unit,
                        y == 2 * unit,
                        unit >= 2,
                        a.mantissa >= 1,
                        q >= 0,
                ;
            }
            result as u32
        }
    }
}

proof fn lemma_units_sign(number: Single, exponent: int)
    requires
        number.is_canonical(),
        exponent <= number.exponent,
    ensures
        number.units(exponent) > 0 <==> number.mantissa > 0 && !number.negative,
        number.units(exponent) < 0 <==> number.mantissa > 0 && number.negative,
{
    let power = two_to((number.exponent - exponent) as nat);
    lemma_two_to_grows((number.exponent - exponent) as nat);
    let m = number.mantissa as int;
    if m > 0 {
        assert(m * power > 0) by (nonlinear_arith)
            requires
                m > 0,
                power > 0,
        ;
    } else {
        assert(0 * power == 0);
    }
}

/// Of two numbers of the same sign the one with the larger exponent is further from zero.
proof fn lemma_exponent_decides(small: Single, large: Single)
    requires
        small.is_canonical(),
        large.is_canonical(),
        small.mantissa > 0,
        large.mantissa > 0,
        small.negative == large.negative,
        small.exponent < large.exponent,
    ensures
        ({
            let low = small.exponent as int;
            if small.negative {
                large.units(low) < small.units(low)
            } else {
                small.units(low) < large.units(low)
            }
        }),
{
    let distance = (large.exponent - small.exponent) as nat;
    assert(two_to(0) == 1);
    assert(small.mantissa * 1 == small.mantissa);
    lemma_two_to_grows(distance);
    let power = two_to(distance);
    let m = large.mantissa as int;
    assert(m * power >= 2 * m) by (nonlinear_arith)
        requires
            power >= 2,
            m >= 0,
    ;
}

/// The order of numbers is total: of two numbers one is smaller, or both are the same.
pub proof fn law_order_is_total(left: Single, right: Single)
    ensures
        !(left.less(right) && right.less(left)),
        !left.less(right) && !right.less(left) ==> {
            let low = if left.canonical().exponent <= right.canonical().exponent {
                left.canonical().exponent as int
            } else {
                right.canonical().exponent as int
            };
            left.canonical().units(low) == right.canonical().units(low)
        },
{
    reveal(Single::less);
}

/// Sums and products do not depend on the order of their operands.
pub proof fn law_operations_commute(left: Single, right: Single)
    ensures
        left.plus(right) == right.plus(left),
        left.times(right) == right.times(left),
{
    reveal(Single::plus);
    reveal(Single::times);
    let a = left.canonical();
    let b = right.canonical();
    lemma_rounded_is_canonical(left.negative, left.mantissa as nat, left.exponent as int);
    lemma_rounded_is_canonical(right.negative, right.mantissa as nat, right.exponent as int);
    assert(a.mantissa * b.mantissa == b.mantissa * a.mantissa) by (nonlinear_arith);
}

/// The number is positive and has the form that every operation gives.
pub open spec fn is_positive(number: Single) -> bool {
    number.is_canonical() && number.mantissa > 0 && !number.negative
}

proof fn lemma_whole_is_positive(value: nat)
    requires
        0 < value <= u32::MAX,
    ensures
        is_positive(whole(value)),
        -0x100_0000 < whole(value).exponent <= 113,
{
    lemma_rounded_is_canonical(false, value, 0);
    if value < MANTISSA_END {
        lemma_digits_under(value);
    } else {
        lemma_digits_over(value);
        lemma_few_digits_over(value);
        lemma_two_to_grows(digits_over(value));
        lemma_nearest_quotient(
            value,
            two_to(digits_over(value)),
            MANTISSA_START as nat,
            MANTISSA_END as nat,
        );
    }
}

/// The exponent of a quotient follows from those of its operands.
proof fn lemma_quotient_exponent(a: Single, b: Single)
    requires
        is_positive(a),
        is_positive(b),
        -0x200_0000 < a.exponent < 0x200_0000,
        -0x200_0000 < b.exponent < 0x200_0000,
    ensures
        is_positive(a.over(b)),
        a.exponent - b.exponent - 24 <= a.over(b).exponent <= a.exponent - b.exponent - 22,
{
    reveal(Single::over);
    lemma_canonical_is_kept(a);
    lemma_canonical_is_kept(b);
    let m = a.mantissa as int;
    let n = b.mantissa as int;
    let start = MANTISSA_START as int;
    let end = MANTISSA_END as int;
    if m >= n {
        lemma_quotient_in_range(m * start, n);
        assert(m * start < n * end) by (nonlinear_arith)
            requires
                m < 2 * n,
                end == 2 * start,
                start > 0,
        ;
        assert(m * start >= n * start) by (nonlinear_arith)
            requires
                m >= n,
                start >= 0,
        ;
    } else {
        lemma_quotient_in_range(m * end, n);
        assert(m * end < n * end) by (nonlinear_arith)
            requires
                m < n,
                end > 0,
        ;
        assert(m * end >= n * start) by (nonlinear_arith)
            requires
                2 * m >= n,
                end == 2 * start,
                start >= 0,
        ;
    }
}

proof fn lemma_quotient_in_range(scaled: int, divisor: int)
    requires
        divisor > 0,
        scaled >= 0,
    ensures
        divisor * MANTISSA_START <= scaled < divisor * MANTISSA_END ==> MANTISSA_START
            <= nearest_quotient(scaled as nat, divisor as nat) <= MANTISSA_END,
{
    let start = MANTISSA_START as int;
    let end = MANTISSA_END as int;
    if divisor * start <= scaled < divisor * end {
        vstd::arithmetic::div_mod::lemma_fundamental_div_mod(scaled, divisor);
        let quotient = scaled / divisor;
        assert(divisor * (quotient + 1) == divisor * quotient + divisor) by (nonlinear_arith);
        assert(quotient < end) by (nonlinear_arith)
            requires
                divisor * quotient <= scaled,
                scaled < divisor * end,
                divisor > 0,
        ;
        assert(quotient >= start) by (nonlinear_arith)
            requires
                scaled < divisor * (quotient + 1),
                scaled >= divisor * start,
                divisor > 0,
        ;
        lemma_nearest_quotient(
            scaled as nat,
            divisor as nat,
            start as nat,
            end as nat,
        );
    }
}

/// The smaller of two positive numbers has no larger exponent than either.
pub proof fn lemma_smaller_exponent(a: Single, b: Single)
    requires
        is_positive(a),
        is_positive(b),
    ensures
        is_positive(a.smaller(b)),
        a.smaller(b).exponent <= a.exponent,
        a.smaller(b).exponent <= b.exponent,
        a.smaller(b) == a || a.smaller(b) == b,
{
    reveal(Single::less);
    lemma_canonical_is_kept(a);
    lemma_canonical_is_kept(b);
    if a.exponent < b.exponent {
        lemma_exponent_decides(a, b);
    } else if b.exponent < a.exponent {
        lemma_exponent_decides(b, a);
    }
}

/// A product with a number that is not larger than `target` divided by the length is small.
proof fn lemma_product_is_small(length: Single, scale: Single)
    requires
        is_positive(length),
        is_positive(scale),
        -0x400_0000 < length.exponent < 0x400_0000,
        -0x400_0000 < scale.exponent < 0x400_0000,
        length.exponent + scale.exponent <= -37,
    ensures
        length.times(scale).nearest_natural() <= 4096,
{
    reveal(Single::times);
    reveal(Single::nearest_natural);
    lemma_canonical_is_kept(length);
    lemma_canonical_is_kept(scale);
    let m = length.mantissa as int;
    let n = scale.mantissa as int;
    let start = MANTISSA_START as int;
    let end = MANTISSA_END as int;
    lemma_two_to_constants();
    assert(start * start <= m * n) by (nonlinear_arith)
        requires
            start <= m,
            start <= n,
            start >= 0,
    ;
    assert(m * n < end * end) by (nonlinear_arith)
        requires
            0 <= m < end,
            0 <= n < end,
    ;
    let product = (m * n) as nat;
    if product < start * end {
        assert(start * two_to(23) <= product < end * two_to(23)) by {
            assert(end * start == start * end) by (nonlinear_arith);
        }
        lemma_count_digits_over(product, 23);
    } else {
        assert(start * two_to(24) <= product < end * two_to(24));
        lemma_count_digits_over(product, 24);
    }
    let result = length.times(scale);
    lemma_rounded_is_canonical(false, product, length.exponent + scale.exponent);
    lemma_canonical_is_kept(result);
    lemma_digits_over(product);
    lemma_two_to_grows(digits_over(product));
    lemma_nearest_quotient(
        product,
        two_to(digits_over(product)),
        MANTISSA_START as nat,
        MANTISSA_END as nat,
    );
    assert(result.exponent <= -12);
    assert(result.mantissa < MANTISSA_END);
    let unit = two_to((-result.exponent) as nat) as int;
    lemma_two_to_monotone(12, (-result.exponent) as nat);
    assert(two_to(12) == 4096) by {
        reveal_with_fuel(two_to, 14);
    }
    let x = 2 * result.mantissa + unit;
    let y = 2 * unit;
    vstd::arithmetic::div_mod::lemma_fundamental_div_mod(x, y);
    let q = x / y;
    assert(q <= 4096) by (nonlinear_arith)
        requires
            y * q <= x,
            x < 2 * 0x100_0000 + unit,
            y == 2 * unit,
            unit >= 4096,
    ;
}

proof fn lemma_targets()
    ensures
        whole(320).exponent == -15,
        whole(180).exponent == -16,
{
    lemma_digits_under(320);
    lemma_digits_under(180);
    reveal_with_fuel(digits_under, 18);
    assert(digits_under(320) == 15);
    assert(digits_under(180) == 16);
}

/// A length times a scale that brings it to at most 320 or 180 stays small.
pub proof fn lemma_scaled_length(length: nat, target: nat, scale: Single)
    requires
        0 < length <= u32::MAX,
        target == 320 || target == 180,
        is_positive(scale),
        -0x300_0000 < scale.exponent,
        scale.exponent <= fraction(target, length).exponent,
    ensures
        whole(length).times(scale).nearest_natural() <= 4096,
{
    lemma_whole_is_positive(length);
    lemma_whole_is_positive(target);
    lemma_targets();
    lemma_quotient_exponent(whole(target), whole(length));
    lemma_product_is_small(whole(length), scale);
}

/// Fractions of positive integers are positive, with moderate exponents.
pub proof fn lemma_fraction_is_positive(value: nat, divisor: nat)
    requires
        0 < value <= u32::MAX,
        0 < divisor <= u32::MAX,
    ensures
        is_positive(fraction(value, divisor)),
        -0x200_0000 <= fraction(value, divisor).exponent <= 0x200_0000,
        is_positive(whole(value)),
        -0x100_0000 < whole(value).exponent,
{
    lemma_whole_is_positive(value);
    lemma_whole_is_positive(divisor);
    lemma_quotient_exponent(whole(value), whole(divisor));
}

proof fn lemma_zero_and_one()
    ensures
        whole(0) == zero(),
        whole(1) == (Single { negative: false, mantissa: MANTISSA_START, exponent: (-23) as i64 }),
        whole(1).is_canonical(),
        whole(1).canonical() == whole(1),
        zero().canonical() == zero(),
{
    reveal_with_fuel(digits_under, 26);
    reveal_with_fuel(two_to, 26);
    assert(digits_under(1) == 23);
    assert(two_to(23) == MANTISSA_START);
    lemma_canonical_is_kept(whole(1));
}

proof fn lemma_units_scale(number: Single, exponent: int, lower: int)
    requires
        lower <= exponent <= number.exponent,
    ensures
        number.units(lower) == number.units(exponent) * two_to((exponent - lower) as nat),
{
    let high = (number.exponent - exponent) as nat;
    let low = (exponent - lower) as nat;
    lemma_two_to_adds(high, low);
    assert((number.exponent - lower) as nat == high + low);
    let m = number.mantissa as int;
    let a = two_to(high) as int;
    let b = two_to(low) as int;
    assert(m * (a * b) == (m * a) * b) by (nonlinear_arith);
    assert((-(m * a)) * b == -((m * a) * b)) by (nonlinear_arith);
}

/// The order of two numbers shows in units of any power of two that is not above theirs.
proof fn lemma_less_in_units(left: Single, right: Single, exponent: int)
    requires
        exponent <= left.canonical().exponent,
        exponent <= right.canonical().exponent,
    ensures
        left.less(right) == (left.canonical().units(exponent) < right.canonical().units(exponent)),
{
    reveal(Single::less);
    let a = left.canonical();
    let b = right.canonical();
    let low = if a.exponent <= b.exponent {
        a.exponent as int
    } else {
        b.exponent as int
    };
    lemma_units_scale(a, low, exponent);
    lemma_units_scale(b, low, exponent);
    let scale = two_to((low - exponent) as nat) as int;
    lemma_two_to_grows((low - exponent) as nat);
    let x = a.units(low);
    let y = b.units(low);
    assert((x < y) == (x * scale < y * scale)) by (nonlinear_arith)
        requires
            scale >= 1,
    ;
}

/// The order of the numbers is transitive.
pub proof fn law_order_is_transitive(large: Single, middle: Single, small: Single)
    requires
        large.at_least(middle),
        middle.at_least(small),
    ensures
        large.at_least(small),
{
    let first = min_int(
        large.canonical().exponent as int,
        middle.canonical().exponent as int,
    );
    let low = min_int(first, small.canonical().exponent as int);
    lemma_less_in_units(large, middle, low);
    lemma_less_in_units(middle, small, low);
    lemma_less_in_units(large, small, low);
}

proof fn lemma_largest_opening()
    ensures
        fraction(1044, 1000).at_least(whole(1)),
{
    reveal(Single::over);
    reveal(Single::less);
    reveal_with_fuel(digits_under, 16);
    reveal_with_fuel(two_to, 16);
    lemma_zero_and_one();
    assert(digits_under(1044) == 13);
    assert(two_to(13) == 8192);
    assert(digits_under(1000) == 14);
    assert(two_to(14) == 16384);
    let a = whole(1044);
    let b = whole(1000);
    assert(a.mantissa == 8552448 && a.exponent == -13);
    assert(b.mantissa == 16384000 && b.exponent == -14);
    lemma_canonical_is_kept(a);
    lemma_canonical_is_kept(b);
    let q = nearest_quotient(8552448 * 16777216, 16384000);
    assert(q == 8757707 || q == 8757706);
    let result = fraction(1044, 1000);
    assert(result.mantissa == q && result.exponent == -23 && !result.negative);
    lemma_canonical_is_kept(result);
    assert(two_to(0) == 1);
}

/// Numbers up to one are below the largest opening.
pub proof fn lemma_one_is_below(number: Single)
    requires
        whole(1).at_least(number),
    ensures
        fraction(1044, 1000).at_least(number),
{
    lemma_largest_opening();
    law_order_is_transitive(fraction(1044, 1000), whole(1), number);
}

/// A number that is not positive, held between zero and one, is zero.
pub proof fn lemma_nothing_is_held(number: Single)
    requires
        zero().at_least(number),
    ensures
        number.held(zero(), whole(1)) == zero(),
{
    reveal(Single::less);
    lemma_zero_and_one();
    let a = number.canonical();
    lemma_rounded_is_canonical(number.negative, number.mantissa as nat, number.exponent as int);
    if !number.less(zero()) {
        let low = if a.exponent <= 0 {
            a.exponent as int
        } else {
            0
        };
        lemma_units_sign(a, low);
        assert(zero().units(low) == 0);
        assert(a == zero());
    }
    lemma_two_to_grows(0);
    lemma_units_sign(whole(1), -23);
    assert(zero().units(-23) == 0);
    assert(!whole(1).less(zero()));
}

/// A small number with nothing added is itself.
pub proof fn lemma_adding_nothing(base: nat, target: nat, part: Single)
    requires
        base <= 255,
        part == zero(),
    ensures
        whole(base).plus(whole(target).minus(whole(base)).times(part)).nearest_natural() == base,
{
    reveal(Single::times);
    reveal(Single::plus);
    reveal(Single::nearest_natural);
    lemma_zero_and_one();
    let gain = whole(target).minus(whole(base)).times(part);
    assert(whole(target).minus(whole(base)).canonical().mantissa * 0 == 0);
    assert(gain == zero());
    let number = whole(base);
    if base > 0 {
        lemma_whole_is_positive(base);
        lemma_canonical_is_kept(number);
        let shift = digits_under(base);
        lemma_digits_under(base);
        let unit = two_to(shift) as int;
        lemma_two_to_grows(shift);
        let scaled = base * unit;
        if shift == 0 {
            assert(base >= MANTISSA_START);
        }
        assert((2 * scaled + unit) / (2 * unit) == base) by (nonlinear_arith)
            requires
                scaled == base * unit,
                unit > 0,
        ;
    }
}

/// What is left of one, once a part that is held to one is taken away, is never negative;
/// nor is a share of it.
pub proof fn law_capped_part_leaves_no_debt(part: Single, weight: Single)
    requires
        !weight.canonical().negative,
    ensures
        !whole(1).minus(part.smaller(whole(1))).negative,
        !weight.times(whole(1).minus(part.smaller(whole(1)))).negative,
{
    reveal(Single::plus);
    reveal(Single::times);
    reveal(Single::less);
    lemma_zero_and_one();
    let taken = part.smaller(whole(1));
    lemma_rounded_is_canonical(part.negative, part.mantissa as nat, part.exponent as int);
    lemma_canonical_is_kept(whole(1));
    lemma_canonical_is_kept(taken);
    let debt = taken.negated();
    lemma_canonical_is_kept(debt);
    let low = if taken.exponent <= -23 {
        taken.exponent as int
    } else {
        -23
    };
    lemma_units_sign(debt, low);
    lemma_units_sign(taken, low);
    assert(!whole(1).less(taken));
    if debt.mantissa > 0 {
        assert(debt.units(low) == -taken.units(low));
    }
    let left = whole(1).minus(taken);
    lemma_rounded_is_canonical(left.negative, left.mantissa as nat, left.exponent as int);
}

/// A number without a sign is not below zero.
pub proof fn law_order_of_zero(number: Single)
    requires
        !number.negative,
    ensures
        number.at_least(zero()),
{
    reveal(Single::less);
    lemma_zero_and_one();
    let a = number.canonical();
    lemma_rounded_is_canonical(number.negative, number.mantissa as nat, number.exponent as int);
    lemma_canonical_is_kept(zero());
    let low = if a.exponent <= 0 {
        a.exponent as int
    } else {
        0
    };
    lemma_units_sign(a, low);
    assert(zero().units(low) == 0) by {
        assert(0 * two_to((0 - low) as nat) == 0);
    }
}

/// The quotient of a number and itself is one.
pub proof fn law_whole_share_is_one(value: nat)
    requires
        0 < value <= u32::MAX * u32::MAX,
    ensures
        fraction(value, value) == whole(1),
{
    reveal(Single::over);
    lemma_zero_and_one();
    let number = whole(value);
    lemma_rounded_is_canonical(false, value, 0);
    lemma_canonical_is_kept(number);
    let m = number.mantissa as int;
    if value >= MANTISSA_END {
        lemma_digits_over(value);
        lemma_few_digits_over(value);
    } else {
        lemma_digits_under(value);
    }
    assert(m > 0);
    assert((m * MANTISSA_START) / m == MANTISSA_START && (m * MANTISSA_START) % m == 0)
        by (nonlinear_arith)
        requires
            m > 0,
    ;
}

/// Quotients of natural numbers are not negative.
pub proof fn law_fractions_are_not_negative(value: nat, divisor: nat)
    ensures
        !fraction(value, divisor).negative,
        !fraction(value, divisor).canonical().negative,
        fraction(value, divisor).at_least(zero()),
{
    reveal(Single::over);
    law_order_of_zero(fraction(value, divisor));
}

/// Nearly all is less than all.
pub proof fn law_nearly_all_is_less()
    ensures
        fraction(995, 1000).less(whole(1)),
{
    reveal(Single::over);
    reveal(Single::less);
    reveal_with_fuel(digits_under, 16);
    reveal_with_fuel(two_to, 16);
    lemma_zero_and_one();
    assert(digits_under(995) == 14);
    assert(digits_under(1000) == 14);
    assert(two_to(14) == 16384);
    let a = whole(995);
    let b = whole(1000);
    assert(a.mantissa == 16302080 && a.exponent == -14);
    assert(b.mantissa == 16384000 && b.exponent == -14);
    lemma_canonical_is_kept(a);
    lemma_canonical_is_kept(b);
    let q = nearest_quotient(16302080 * 16777216, 16384000);
    assert(q == 16693329 || q == 16693330);
    let result = fraction(995, 1000);
    assert(result.mantissa == q && result.exponent == -24 && !result.negative);
    lemma_canonical_is_kept(result);
    assert(two_to(0) == 1);
    assert(two_to(1) == 2);
}

/// The number nearest to an integer.
pub open spec fn integer(value: int) -> Single {
    rounded(
        value < 0,
        (if value < 0 {
            -value
        } else {
            value
        }) as nat,
        0,
    )
}

proof fn lemma_shifted_under(value: nat, shift: nat)
    requires
        0 < value < MANTISSA_END,
        shift <= digits_under(value),
    ensures
        0 < value * two_to(shift) < MANTISSA_END,
        digits_under(value * two_to(shift)) == digits_under(value) - shift,
    decreases shift,
{
    if shift == 0 {
        assert(value * 1 == value);
    } else {
        lemma_shifted_under(value, (shift - 1) as nat);
        let before = value * two_to((shift - 1) as nat);
        let power = two_to((shift - 1) as nat);
        assert(value * (2 * power) == 2 * (value * power)) by (nonlinear_arith);
        assert(before < MANTISSA_START);
    }
}

proof fn lemma_shifted_over(value: nat, shift: nat)
    requires
        MANTISSA_START <= value < MANTISSA_END,
    ensures
        digits_over(value * two_to(shift)) == shift,
        shift > 0 ==> value * two_to(shift) >= MANTISSA_END,
    decreases shift,
{
    if shift == 0 {
        assert(value * 1 == value);
    } else {
        lemma_shifted_over(value, (shift - 1) as nat);
        let before = value * two_to((shift - 1) as nat);
        let power = two_to((shift - 1) as nat);
        assert(value * (2 * power) == 2 * (value * power)) by (nonlinear_arith);
        if shift == 1 {
            assert(before == value) by {
                assert(value * 1 == value);
            }
        }
        assert((2 * before) / 2 == before);
    }
}

/// A value of up to 24 digits is rounded to the same number however its power of two is split.
proof fn lemma_rounded_scales(negative: bool, value: nat, shift: nat, exponent: int)
    requires
        value < MANTISSA_END,
    ensures
        rounded(negative, value * two_to(shift), exponent) == rounded(
            negative,
            value,
            exponent + shift,
        ),
{
    if value == 0 {
        assert(0 * two_to(shift) == 0);
    } else {
        let lacking = digits_under(value);
        lemma_digits_under(value);
        let full = value * two_to(lacking);
        if shift <= lacking {
            lemma_shifted_under(value, shift);
            let rest = (lacking - shift) as nat;
            lemma_two_to_adds(shift, rest);
            let a = two_to(shift);
            let b = two_to(rest);
            assert((value * a) * b == value * (a * b)) by (nonlinear_arith);
        } else {
            let more = (shift - lacking) as nat;
            lemma_two_to_adds(lacking, more);
            let a = two_to(lacking);
            let b = two_to(more);
            assert(value * (a * b) == (value * a) * b) by (nonlinear_arith);
            lemma_shifted_over(full, more);
            lemma_two_to_grows(more);
            assert((full * b) / b == full && (full * b) % b == 0) by (nonlinear_arith)
                requires
                    b > 0,
            ;
            assert(nearest_quotient(full * b, b) == full);
        }
    }
}

proof fn lemma_few_digits_under(value: nat)
    requires
        0 < value < MANTISSA_END,
    ensures
        digits_under(value) <= 23,
{
    let shift = digits_under(value);
    lemma_digits_under(value);
    if shift >= 24 {
        lemma_two_to_constants();
        lemma_two_to_monotone(24, shift);
        let power = two_to(shift);
        assert(power <= value * power) by (nonlinear_arith)
            requires
                value >= 1,
        ;
    }
}

/// A small integer is exactly represented.
proof fn lemma_integer_units(value: int, shift: nat)
    requires
        -MANTISSA_END < value < MANTISSA_END,
        shift >= 24,
    ensures
        integer(value).is_canonical(),
        integer(value).canonical() == integer(value),
        integer(value).exponent >= -23,
        integer(value).exponent <= 0,
        integer(value).units(-shift) == value * two_to(shift),
        integer(value).mantissa == 0 <==> value == 0,
        value != 0 ==> (integer(value).negative <==> value < 0),
        value != 0 ==> integer(value).exponent == -digits_under(
            (if value < 0 {
                -value
            } else {
                value
            }) as nat,
        ),
{
    let size = (if value < 0 {
        -value
    } else {
        value
    }) as nat;
    lemma_rounded_is_canonical(value < 0, size, 0);
    lemma_canonical_is_kept(integer(value));
    if value == 0 {
        assert(0 * two_to(shift) == 0);
    } else {
        lemma_digits_under(size);
        lemma_few_digits_under(size);
        let d = digits_under(size);
        let rest = (shift - d) as nat;
        lemma_two_to_adds(d, rest);
        let a = two_to(d);
        let b = two_to(rest);
        assert((size * a) * b == size * (a * b)) by (nonlinear_arith);
        let p = two_to(shift) as int;
        assert((-size) * p == -(size * p)) by (nonlinear_arith);
    }
}

/// Small integers are added exactly.
pub proof fn law_small_integers_add(left: int, right: int)
    requires
        -MANTISSA_END < left < MANTISSA_END,
        -MANTISSA_END < right < MANTISSA_END,
        -MANTISSA_END < left + right < MANTISSA_END,
    ensures
        integer(left).plus(integer(right)) == integer(left + right),
        integer(left).minus(integer(-right)) == integer(left + right),
{
    reveal(Single::plus);
    let a = integer(left);
    let b = integer(right);
    lemma_integer_units(left, 24);
    lemma_integer_units(right, 24);
    lemma_integer_units(-right, 24);
    assert(integer(-right).negated() == b);
    if left != 0 && right != 0 {
        let low = if a.exponent <= b.exponent {
            a.exponent as int
        } else {
            b.exponent as int
        };
        let shift = (-low) as nat;
        lemma_units_scale(a, low, -24);
        lemma_units_scale(b, low, -24);
        let rest = (24 - shift) as nat;
        lemma_two_to_adds(shift, rest);
        lemma_two_to_grows(rest);
        let p = two_to(shift) as int;
        let q = two_to(rest) as int;
        assert(a.units(low) == left * p) by (nonlinear_arith)
            requires
                a.units(low) * q == left * (p * q),
                q > 0,
        ;
        assert(b.units(low) == right * p) by (nonlinear_arith)
            requires
                b.units(low) * q == right * (p * q),
                q > 0,
        ;
        let sum = left + right;
        assert(left * p + right * p == sum * p) by (nonlinear_arith)
            requires
                sum == left + right,
        ;
        lemma_two_to_grows(shift);
        let size = (if sum < 0 {
            -sum
        } else {
            sum
        }) as nat;
        assert((sum * p < 0) == (sum < 0)) by (nonlinear_arith)
            requires
                p > 0,
        ;
        assert((-sum) * p == -(sum * p)) by (nonlinear_arith);
        lemma_rounded_scales(sum < 0, size, shift, low);
        assert(low + shift == 0);
        assert(size * two_to(shift) == if sum < 0 {
            -(sum * p)
        } else {
            sum * p
        });
    }
}

/// Small integers are multiplied exactly.
pub proof fn law_small_integers_multiply(left: int, right: int)
    requires
        -MANTISSA_END < left < MANTISSA_END,
        -MANTISSA_END < right < MANTISSA_END,
        -MANTISSA_END < left * right < MANTISSA_END,
    ensures
        integer(left).times(integer(right)) == integer(left * right),
{
    reveal(Single::times);
    let a = integer(left);
    let b = integer(right);
    lemma_integer_units(left, 24);
    lemma_integer_units(right, 24);
    if left == 0 || right == 0 {
        assert(left * right == 0) by (nonlinear_arith)
            requires
                left == 0 || right == 0,
        ;
        assert(a.mantissa * b.mantissa == 0) by (nonlinear_arith)
            requires
                a.mantissa == 0 || b.mantissa == 0,
        ;
    } else {
        let x = (if left < 0 {
            -left
        } else {
            left
        }) as nat;
        let y = (if right < 0 {
            -right
        } else {
            right
        }) as nat;
        let product = left * right;
        let size = (if product < 0 {
            -product
        } else {
            product
        }) as nat;
        assert(size == x * y && (product < 0) == ((left < 0) != (right < 0))) by (nonlinear_arith)
            requires
                product == left * right,
                left != 0,
                right != 0,
                x == if left < 0 {
                    -left
                } else {
                    left
                },
                y == if right < 0 {
                    -right
                } else {
                    right
                },
                size == if product < 0 {
                    -product
                } else {
                    product
                },
        ;
        let d = digits_under(x);
        let e = digits_under(y);
        lemma_digits_under(x);
        lemma_digits_under(y);
        lemma_two_to_adds(d, e);
        let p = two_to(d);
        let q = two_to(e);
        assert((x * p) * (y * q) == (x * y) * (p * q)) by (nonlinear_arith);
        lemma_rounded_scales(product < 0, size, d + e, -(d + e));
    }
}

/// Small integers are ordered as numbers are.
pub proof fn law_small_integers_are_in_order(left: int, right: int)
    requires
        -MANTISSA_END < left < MANTISSA_END,
        -MANTISSA_END < right < MANTISSA_END,
    ensures
        integer(left).less(integer(right)) <==> left < right,
        integer(left).at_least(integer(right)) <==> left >= right,
        integer(left).smaller(integer(right)) == integer(
            if left <= right {
                left
            } else {
                right
            },
        ),
        integer(left).larger(integer(right)) == integer(
            if left >= right {
                left
            } else {
                right
            },
        ),
{
    lemma_integer_units(left, 24);
    lemma_integer_units(right, 24);
    lemma_less_in_units(integer(left), integer(right), -24);
    lemma_less_in_units(integer(right), integer(left), -24);
    lemma_two_to_grows(24);
    let p = two_to(24) as int;
    assert((left * p < right * p) == (left < right) && (right * p < left * p) == (right < left))
        by (nonlinear_arith)
        requires
            p > 0,
    ;
}

/// A small natural number is the natural number nearest to it, and the sign of a small
/// integer is the only thing that its negation changes.
pub proof fn law_small_integers_are_kept(value: int)
    requires
        -MANTISSA_END < value < MANTISSA_END,
    ensures
        integer(value).is_canonical(),
        integer(value).canonical() == integer(value),
        value >= 0 ==> integer(value).nearest_natural() == value,
        value < 0 ==> integer(value).nearest_natural() == 0,
        value >= 0 ==> integer(value) == whole(value as nat),
        integer(value).negated() == integer(-value),
        value >= 0 ==> integer(value).absolute() == integer(value),
        value < 0 ==> integer(value).absolute() == integer(-value),
{
    reveal(Single::nearest_natural);
    lemma_integer_units(value, 24);
    lemma_integer_units(-value, 24);
    if value > 0 {
        let a = integer(value);
        let d = digits_under(value as nat);
        lemma_digits_under(value as nat);
        let unit = two_to(d) as int;
        lemma_two_to_grows(d);
        let scaled = value * unit;
        assert(a.mantissa == scaled && a.exponent == -d && a.canonical() == a);
        if d == 0 {
            assert(two_to(0) == 1);
            assert(value * 1 == value);
            assert(a.mantissa * two_to(0) == value) by {
                assert(a.mantissa * 1 == a.mantissa);
            }
        } else {
            assert(two_to((-a.exponent) as nat) == unit);
        }
        assert((2 * scaled + unit) / (2 * unit) == value) by (nonlinear_arith)
            requires
                scaled == value * unit,
                unit > 0,
        ;
    } else if value == 0 {
        assert(0 * two_to(0) == 0);
    }
}

/// Small products are divided exactly.
pub proof fn law_small_integers_divide(quotient: nat, divisor: nat)
    requires
        0 < divisor,
        quotient * divisor < MANTISSA_END,
        divisor < MANTISSA_END,
        quotient < MANTISSA_END,
    ensures
        fraction(quotient * divisor, divisor) == whole(quotient),
        integer(-(quotient * divisor)).over(whole(divisor)) == integer(-quotient),
        whole(quotient).over(zero()) == zero(),
{
    reveal(Single::over);
    lemma_zero_and_one();
    let product = quotient * divisor;
    lemma_integer_units(product as int, 24);
    lemma_integer_units(-product, 24);
    lemma_integer_units(divisor as int, 24);
    if quotient == 0 {
        assert(0 * divisor == 0);
    } else {
        assert(product > 0) by (nonlinear_arith)
            requires
                product == quotient * divisor,
                quotient > 0,
                divisor > 0,
        ;
        let d = digits_under(product);
        let e = digits_under(divisor);
        lemma_digits_under(product);
        lemma_digits_under(divisor);
        lemma_few_digits_under(product);
        lemma_few_digits_under(divisor);
        let m = product * two_to(d);
        let n = divisor * two_to(e);
        lemma_two_to_constants();
        let extra: nat = if m >= n {
            23
        } else {
            24
        };
        let shift = (d + extra - e) as nat;
        lemma_two_to_adds(d, extra);
        lemma_two_to_adds(e, shift);
        let r = quotient * two_to(shift);
        let td = two_to(d);
        let te = two_to(e);
        let tx = two_to(extra);
        let ts = two_to(shift);
        assert((d + extra) as nat == e + shift);
        assert(((quotient * divisor) * td) * tx == (quotient * ts) * (divisor * te))
            by (nonlinear_arith)
            requires
                td * tx == te * ts,
        ;
        assert(m * tx == r * n);
        assert((r * n) / n == r && (r * n) % n == 0) by (nonlinear_arith)
            requires
                n > 0,
        ;
        assert(nearest_quotient(r * n, n) == r);
        assert(MANTISSA_START <= r < MANTISSA_END) by (nonlinear_arith)
            requires
                m * tx == r * n,
                0x80_0000 <= m < 0x100_0000,
                0x80_0000 <= n < 0x100_0000,
                m >= n ==> tx == 0x80_0000,
                m < n ==> tx == 0x100_0000,
                MANTISSA_START == 0x80_0000,
                MANTISSA_END == 0x100_0000,
        ;
        lemma_rounded_scales(false, quotient, shift, -shift);
        lemma_rounded_scales(true, quotient, shift, -shift);
        assert(digits_under(r) == 0);
        assert(r * two_to(0) == r);
    }
}

/// Rounding goes to the nearest mantissa: what it adds or drops is at most half of the unit
/// of its last digit, and nothing where 24 digits are enough.
pub proof fn law_rounding_is_to_the_nearest(value: nat, divisor: nat)
    requires
        divisor > 0,
    ensures
        2 * (nearest_quotient(value, divisor) * divisor - value) <= divisor,
        2 * (value - nearest_quotient(value, divisor) * divisor) <= divisor,
        value % divisor == 0 ==> nearest_quotient(value, divisor) * divisor == value,
        2 * (value % divisor) == divisor ==> nearest_quotient(value, divisor) % 2 == 0,
{
    let q = value / divisor;
    let rest = value % divisor;
    vstd::arithmetic::div_mod::lemma_fundamental_div_mod(value as int, divisor as int);
    assert(divisor * q == q * divisor) by (nonlinear_arith);
    assert((q + 1) * divisor == q * divisor + divisor) by (nonlinear_arith);
}

/// What is held inside a range does not leave it, and what is inside it stays.
pub proof fn law_held_numbers_are_in_range(number: Single, low: Single, high: Single)
    requires
        high.at_least(low),
    ensures
        number.held(low, high).at_least(low),
        high.at_least(number.held(low, high)),
        number.at_least(low) && high.at_least(number) ==> number.held(low, high)
            == number.canonical(),
        low.at_least(number) && !number.at_least(low) ==> number.held(low, high)
            == low.canonical() || number.held(low, high) == high.canonical(),
        number.at_least(high) && high.less(number) && number.at_least(low) ==> number.held(
            low,
            high,
        ) == high.canonical(),
{
    reveal(Single::less);
    lemma_rounded_is_canonical(number.negative, number.mantissa as nat, number.exponent as int);
    lemma_rounded_is_canonical(low.negative, low.mantissa as nat, low.exponent as int);
    lemma_rounded_is_canonical(high.negative, high.mantissa as nat, high.exponent as int);
    lemma_canonical_is_kept(number.canonical());
    lemma_canonical_is_kept(low.canonical());
    lemma_canonical_is_kept(high.canonical());
}

/// A number less itself is nothing, a number over itself is one, and with nothing added it
/// stays what it is.
pub proof fn law_numbers_cancel(number: Single)
    requires
        number.is_canonical(),
    ensures
        number.minus(number) == zero(),
        number.plus(zero()) == number,
        zero().plus(number) == number,
        number != zero() ==> number.over(number) == whole(1),
        number.times(zero()) == zero(),
        number.times(whole(1)) == number,
        zero().over(number) == zero(),
{
    reveal(Single::plus);
    reveal(Single::over);
    reveal(Single::times);
    lemma_zero_and_one();
    lemma_canonical_is_kept(number);
    let m = number.mantissa as int;
    assert(m * 0 == 0);
    assert(0 * m == 0);
    if number == zero() {
        assert(0 * MANTISSA_START == 0);
    } else {
        lemma_canonical_is_kept(number.negated());
        let e = number.exponent as int;
        assert(number.units(e) + number.negated().units(e) == 0);
        assert((m * MANTISSA_START) / m == MANTISSA_START && (m * MANTISSA_START) % m == 0)
            by (nonlinear_arith)
            requires
                m > 0,
        ;
        assert(two_to(23) == MANTISSA_START) by {
            lemma_two_to_constants();
        }
        lemma_rounded_scales(number.negative, m as nat, 23, e - 23);
        assert(digits_under(m as nat) == 0);
        assert(m * two_to(0) == m) by {
            assert(m * 1 == m);
        }
        assert(e - 23 + 23 == e);
        assert(bounded(e) == e);
    }
}

/// A part of 255 is less than all.
pub proof fn lemma_a_part_is_less()
    ensures
        fraction(1, 255).less(whole(1)),
        fraction(1, 255).is_canonical(),
        zero().less(fraction(1, 255)),
{
    reveal(Single::over);
    reveal(Single::less);
    reveal_with_fuel(digits_under, 26);
    reveal_with_fuel(two_to, 26);
    lemma_zero_and_one();
    assert(digits_under(255) == 16);
    assert(two_to(16) == 65536);
    let b = whole(255);
    assert(b.mantissa == 16711680 && b.exponent == -16);
    lemma_canonical_is_kept(b);
    let q = nearest_quotient(8388608 * 16777216, 16711680);
    assert(q == 8421504 || q == 8421505);
    let result = fraction(1, 255);
    assert(result.mantissa == q && result.exponent == -31 && !result.negative);
    lemma_canonical_is_kept(result);
    assert(two_to(0) == 1);
    assert(two_to(8) == 256);
    assert(two_to(31) > 0) by {
        lemma_two_to_grows(31);
    }
    lemma_units_sign(result, -31);
    assert(zero().units(-31) == 0) by {
        assert(0 * two_to(31) == 0);
    }
}

/// A difference has the form that every operation gives.
pub proof fn lemma_result_is_canonical(left: Single, right: Single)
    ensures
        left.minus(right).is_canonical(),
        left.plus(right).is_canonical(),
{
    reveal(Single::plus);
    let a = left.canonical();
    let b = right.canonical();
    let c = right.negated();
    lemma_rounded_is_canonical(left.negative, left.mantissa as nat, left.exponent as int);
    lemma_rounded_is_canonical(right.negative, right.mantissa as nat, right.exponent as int);
    lemma_canonical_is_kept(a);
    lemma_canonical_is_kept(b);
    lemma_canonical_is_kept(c);
    lemma_sum_is_canonical(a, b);
    lemma_sum_is_canonical(a, c);
}

proof fn lemma_sum_is_canonical(a: Single, b: Single)
    ensures
        ({
            let low = if a.exponent <= b.exponent {
                a.exponent as int
            } else {
                b.exponent as int
            };
            let sum = a.units(low) + b.units(low);
            rounded(
                sum < 0,
                (if sum < 0 {
                    -sum
                } else {
                    sum
                }) as nat,
                low,
            ).is_canonical()
        }),
{
    let low = if a.exponent <= b.exponent {
        a.exponent as int
    } else {
        b.exponent as int
    };
    let sum = a.units(low) + b.units(low);
    lemma_rounded_is_canonical(
        sum < 0,
        (if sum < 0 {
            -sum
        } else {
            sum
        }) as nat,
        low,
    );
}

/// A quotient of small natural numbers has the form that every operation gives.
pub proof fn lemma_fraction_is_canonical(value: nat, divisor: nat)
    requires
        0 < value < MANTISSA_END,
        0 < divisor < MANTISSA_END,
    ensures
        fraction(value, divisor).is_canonical(),
{
    reveal(Single::over);
    lemma_integer_units(value as int, 24);
    lemma_integer_units(divisor as int, 24);
    let m = whole(value).mantissa as int;
    let n = whole(divisor).mantissa as int;
    if m >= n {
        let product = m * MANTISSA_START;
        assert(0x80_0000 <= product / n < 0x100_0000) by (nonlinear_arith)
            requires
                product == m * 0x80_0000,
                n <= m < 0x100_0000,
                0x80_0000 <= n,
        ;
    } else {
        let product = m * MANTISSA_END;
        assert(0x80_0000 <= product / n < 0x100_0000) by (nonlinear_arith)
            requires
                product == m * 0x100_0000,
                0x80_0000 <= m < n,
                n < 0x100_0000,
        ;
    }
}

/// A part of nothing is nothing.
pub proof fn lemma_fraction_of_nothing(divisor: nat)
    ensures
        fraction(0, divisor) == zero(),
{
    reveal(Single::over);
    lemma_zero_and_one();
}

/// What is not positive is zero once it is raised to zero.
pub proof fn lemma_larger_than_nothing(number: Single)
    requires
        zero().at_least(number),
    ensures
        number.larger(zero()) == zero(),
{
    reveal(Single::less);
    lemma_zero_and_one();
    let a = number.canonical();
    lemma_rounded_is_canonical(number.negative, number.mantissa as nat, number.exponent as int);
    if !number.less(zero()) {
        let low = if a.exponent <= 0 {
            a.exponent as int
        } else {
            0
        };
        lemma_units_sign(a, low);
        assert(zero().units(low) == 0);
        assert(a == zero());
    }
}

/// Numbers that are each at least the other are the same.
pub proof fn law_at_least_both_ways_is_equal(left: Single, right: Single)
    requires
        left.is_canonical(),
        right.is_canonical(),
        left.at_least(right),
        right.at_least(left),
    ensures
        left == right,
{
    law_order_is_total(left, right);
    lemma_canonical_is_kept(left);
    lemma_canonical_is_kept(right);
    let low = if left.exponent <= right.exponent {
        left.exponent as int
    } else {
        right.exponent as int
    };
    lemma_units_sign(left, low);
    lemma_units_sign(right, low);
    if left.mantissa > 0 {
        lemma_same_size(
            left.mantissa as int,
            right.mantissa as int,
            (left.exponent - low) as nat,
            (right.exponent - low) as nat,
        );
    }
}

proof fn lemma_same_size(a: int, b: int, j: nat, k: nat)
    requires
        MANTISSA_START <= a < MANTISSA_END,
        MANTISSA_START <= b < MANTISSA_END,
        j == 0 || k == 0,
        a * two_to(j) == b * two_to(k),
    ensures
        a == b,
        j == k,
{
    let p = two_to(j) as int;
    let q = two_to(k) as int;
    if j > 0 {
        lemma_two_to_grows(j);
        assert(two_to(0) == 1);
        assert(a * p >= a * 2) by (nonlinear_arith)
            requires
                p >= 2,
                a > 0,
        ;
        assert(b * 1 == b);
    } else if k > 0 {
        lemma_two_to_grows(k);
        assert(two_to(0) == 1);
        assert(b * q >= b * 2) by (nonlinear_arith)
            requires
                q >= 2,
                b > 0,
        ;
        assert(a * 1 == a);
    } else {
        assert(two_to(0) == 1);
        assert(a * 1 == a && b * 1 == b);
    }
}

/// The smaller of two numbers is one of them and above neither; the larger is one of them and
/// below neither.
pub proof fn law_the_smaller_is_above_neither(left: Single, right: Single)
    ensures
        left.at_least(left.smaller(right)),
        right.at_least(left.smaller(right)),
        left.smaller(right) == left.canonical() || left.smaller(right) == right.canonical(),
        left.larger(right).at_least(left),
        left.larger(right).at_least(right),
        left.larger(right) == left.canonical() || left.larger(right) == right.canonical(),
{
    reveal(Single::less);
    lemma_rounded_is_canonical(left.negative, left.mantissa as nat, left.exponent as int);
    lemma_rounded_is_canonical(right.negative, right.mantissa as nat, right.exponent as int);
    lemma_canonical_is_kept(left.canonical());
    lemma_canonical_is_kept(right.canonical());
    law_order_is_total(left, right);
}

/// The quotient of two natural numbers, as a power of two times the dividend over the
/// mantissa of the divisor.
proof fn lemma_fraction_parts(value: nat, divisor: nat) -> (shift: nat)
    requires
        0 < value < MANTISSA_END,
        0 < divisor < MANTISSA_END,
    ensures
        ({
            let n = whole(divisor).mantissa as nat;
            let low = -shift - whole(divisor).exponent;
            &&& MANTISSA_START <= n < MANTISSA_END
            &&& MANTISSA_START * n <= value * two_to(shift) < MANTISSA_END * n
            &&& shift <= 47
            &&& fraction(value, divisor) == packed(
                false,
                nearest_quotient(value * two_to(shift), n),
                low,
            )
            &&& -23 <= whole(divisor).exponent <= 0
        }),
{
    reveal(Single::over);
    lemma_integer_units(value as int, 24);
    lemma_integer_units(divisor as int, 24);
    lemma_digits_under(value);
    lemma_few_digits_under(value);
    lemma_two_to_constants();
    let m = whole(value).mantissa as int;
    let n = whole(divisor).mantissa as int;
    let d = digits_under(value);
    let extra: nat = if m >= n {
        23
    } else {
        24
    };
    let shift = d + extra;
    lemma_two_to_adds(d, extra);
    let a = two_to(d);
    let b = two_to(extra);
    assert((value * a) * b == value * (a * b)) by (nonlinear_arith);
    if m >= n {
        assert(0x80_0000 * n <= m * 0x80_0000 && m * 0x80_0000 < 0x100_0000 * n) by (nonlinear_arith)
            requires
                n <= m < 0x100_0000,
                0x80_0000 <= n,
        ;
    } else {
        assert(0x80_0000 * n <= m * 0x100_0000 && m * 0x100_0000 < 0x100_0000 * n)
            by (nonlinear_arith)
            requires
                0x80_0000 <= m < n,
                n < 0x100_0000,
        ;
    }
    shift
}

proof fn lemma_packed_units(mantissa: nat, exponent: int, low: int)
    requires
        MANTISSA_START <= mantissa <= MANTISSA_END,
        low <= exponent,
        -0x1000 <= exponent <= 0x1000,
    ensures
        packed(false, mantissa, exponent).is_canonical(),
        packed(false, mantissa, exponent).canonical() == packed(false, mantissa, exponent),
        packed(false, mantissa, exponent).exponent >= exponent,
        packed(false, mantissa, exponent).units(low) == mantissa * two_to((exponent - low) as nat),
{
    lemma_canonical_is_kept(packed(false, mantissa, exponent));
    if mantissa == MANTISSA_END {
        let p = two_to((exponent - low) as nat);
        assert(two_to((exponent + 1 - low) as nat) == 2 * p);
        assert(0x80_0000 * (2 * p) == 0x100_0000 * p) by (nonlinear_arith);
    }
}

/// Quotients with the same divisor are ordered as their dividends are.
pub proof fn law_fractions_are_in_order(small: nat, large: nat, divisor: nat)
    requires
        small < large < 0x10_0000,
        0 < divisor < MANTISSA_END,
    ensures
        fraction(small, divisor).less(fraction(large, divisor)),
        !fraction(large, divisor).less(fraction(small, divisor)),
{
    let sb = lemma_fraction_parts(large, divisor);
    let n = whole(divisor).mantissa as nat;
    let e = whole(divisor).exponent as int;
    let qb = nearest_quotient(large * two_to(sb), n);
    let eb = -sb - e;
    lemma_quotient_bounds(large * two_to(sb), n);
    let result = fraction(large, divisor);
    if small == 0 {
        lemma_fraction_of_nothing(divisor);
        let low = if eb <= 0 {
            eb
        } else {
            0
        };
        lemma_packed_units(qb, eb, low);
        lemma_canonical_is_kept(zero());
        lemma_units_sign(result, low);
        lemma_less_in_units(zero(), result, low);
        lemma_less_in_units(result, zero(), low);
        assert(zero().units(low) == 0) by {
            assert(0 * two_to((0 - low) as nat) == 0);
        }
        assert(qb * two_to((eb - low) as nat) > 0) by {
            lemma_two_to_grows((eb - low) as nat);
            let p = two_to((eb - low) as nat);
            assert(qb * p > 0) by (nonlinear_arith)
                requires
                    qb > 0,
                    p > 0,
            ;
        }
    } else {
        let sa = lemma_fraction_parts(small, divisor);
        let qa = nearest_quotient(small * two_to(sa), n);
        let ea = -sa - e;
        lemma_quotient_bounds(small * two_to(sa), n);
        let p = two_to(sa);
        if sb > sa {
            lemma_two_to_monotone(sa + 1, sb);
            assert(two_to(sa + 1) == 2 * p);
            let q = two_to(sb);
            assert(large * q >= 2 * (small * p)) by (nonlinear_arith)
                requires
                    q >= 2 * p,
                    large >= small,
                    p >= 0,
            ;
            assert(MANTISSA_END * n == 2 * (MANTISSA_START * n)) by (nonlinear_arith)
                requires
                    MANTISSA_END == 2 * MANTISSA_START,
            ;
        }
        let t = (sa - sb) as nat;
        lemma_two_to_adds(sb, t);
        lemma_packed_units(qa, ea, ea);
        lemma_packed_units(qb, eb, ea);
        lemma_less_in_units(fraction(small, divisor), result, ea);
        lemma_less_in_units(result, fraction(small, divisor), ea);
        assert(two_to(0) == 1);
        assert(qa * 1 == qa);
        let w = two_to(t);
        let pb = two_to(sb);
        assert((large * pb) * w == large * p) by (nonlinear_arith)
            requires
                p == pb * w,
        ;
        lemma_two_to_grows(sa);
        lemma_two_to_grows(t);
        if t >= 2 {
            lemma_two_to_monotone(2, t);
            assert(two_to(2) == 4) by {
                reveal_with_fuel(two_to, 3);
            }
        } else if t == 1 {
            assert(two_to(1) == 2) by {
                reveal_with_fuel(two_to, 2);
            }
        }
        lemma_quotients_in_order(
            small,
            large,
            p,
            n,
            w,
            small * p,
            large * pb,
        );
    }
}

proof fn lemma_quotient_bounds(value: nat, divisor: nat)
    requires
        divisor > 0,
        MANTISSA_START * divisor <= value < MANTISSA_END * divisor,
    ensures
        MANTISSA_START <= nearest_quotient(value, divisor) <= MANTISSA_END,
{
    let q = value / divisor;
    vstd::arithmetic::div_mod::lemma_fundamental_div_mod(value as int, divisor as int);
    assert(0x80_0000 <= q < 0x100_0000) by (nonlinear_arith)
        requires
            value == divisor * q + value % divisor,
            0 <= value % divisor < divisor,
            0x80_0000 * divisor <= value < 0x100_0000 * divisor,
            divisor > 0,
    ;
}

proof fn lemma_quotients_in_order(a: nat, b: nat, p: nat, n: nat, w: nat, x: nat, y: nat)
    requires
        0 < a < b < 0x10_0000,
        0x80_0000 <= n < 0x100_0000,
        p > 0,
        w == 1 || w == 2 || w >= 4,
        x == a * p,
        y * w == b * p,
        0x80_0000 * n <= x < 0x100_0000 * n,
        nearest_quotient(x, n) <= 0x100_0000,
        nearest_quotient(y, n) >= 0x80_0000,
    ensures
        nearest_quotient(x, n) < nearest_quotient(y, n) * w,
{
    let qa = nearest_quotient(x, n);
    let qb = nearest_quotient(y, n);
    law_rounding_is_to_the_nearest(x, n);
    law_rounding_is_to_the_nearest(y, n);
    assert(p >= 8 * n) by (nonlinear_arith)
        requires
            0x80_0000 * n <= a * p,
            a < 0x10_0000,
            n > 0,
            p > 0,
    ;
    assert(b * p >= a * p + p) by (nonlinear_arith)
        requires
            b >= a + 1,
            p > 0,
    ;
    if w >= 4 {
        assert(qb * w >= 0x80_0000 * 4) by (nonlinear_arith)
            requires
                qb >= 0x80_0000,
                w >= 4,
        ;
    } else if w == 2 {
        assert(y * 2 >= a * p + 8 * n);
        assert(2 * (qa * n - a * p) <= n);
        assert(2 * (y - qb * n) <= n);
        assert((qb * 2) * n > qa * n) by (nonlinear_arith)
            requires
                y * 2 >= a * p + 8 * n,
                2 * (qa * n - a * p) <= n,
                2 * (y - qb * n) <= n,
                n > 0,
        ;
        assert(qb * 2 > qa) by (nonlinear_arith)
            requires
                (qb * 2) * n > qa * n,
                n > 0,
        ;
    } else {
        assert(y * 1 == y);
        assert(qb * n > qa * n) by (nonlinear_arith)
            requires
                y >= a * p + 8 * n,
                2 * (qa * n - a * p) <= n,
                2 * (y - qb * n) <= n,
                n > 0,
        ;
        assert(qb > qa) by (nonlinear_arith)
            requires
                qb * n > qa * n,
                n > 0,
        ;
    }
}

/// One share of a whole reaches another exactly where it has as much of it.
pub proof fn law_shares_are_compared_by_their_parts(part: nat, other: nat, divisor: nat)
    requires
        part < 0x10_0000,
        other < 0x10_0000,
        0 < divisor < MANTISSA_END,
    ensures
        fraction(part, divisor).at_least(fraction(other, divisor)) <==> part >= other,
        fraction(part, divisor).less(fraction(other, divisor)) <==> part < other,
{
    if part < other {
        law_fractions_are_in_order(part, other, divisor);
    } else if other < part {
        law_fractions_are_in_order(other, part, divisor);
    } else {
        law_order_is_total(fraction(part, divisor), fraction(part, divisor));
    }
}

proof fn lemma_nearest_in_order(x: nat, n: nat, y: nat, m: nat)
    requires
        n > 0,
        m > 0,
        x * m <= y * n,
    ensures
        nearest_quotient(x, n) <= nearest_quotient(y, m),
{
    let p = nearest_quotient(x, n) as int;
    let q = nearest_quotient(y, m) as int;
    law_rounding_is_to_the_nearest(x, n);
    law_rounding_is_to_the_nearest(y, m);
    if p > q {
        assert((2 * p - 1) * n <= 2 * x) by (nonlinear_arith)
            requires
                2 * (p * n - x) <= n,
        ;
        assert(2 * y <= (2 * q + 1) * m) by (nonlinear_arith)
            requires
                2 * (y - q * m) <= m,
        ;
        assert((2 * p - 1) * n * m <= 2 * x * m) by (nonlinear_arith)
            requires
                (2 * p - 1) * n <= 2 * x,
                m > 0,
        ;
        assert(2 * y * n <= (2 * q + 1) * m * n) by (nonlinear_arith)
            requires
                2 * y <= (2 * q + 1) * m,
                n > 0,
        ;
        assert(2 * x * m <= 2 * y * n) by (nonlinear_arith)
            requires
                x * m <= y * n,
        ;
        assert((2 * p - 1) * n * m <= (2 * q + 1) * m * n);
        let area = (n * m) as int;
        assert(area > 0) by (nonlinear_arith)
            requires
                area == n * m,
                n > 0,
                m > 0,
        ;
        assert((2 * p - 1) * area <= (2 * q + 1) * area) by (nonlinear_arith)
            requires
                (2 * p - 1) * n * m <= (2 * q + 1) * m * n,
                area == n * m,
        ;
        assert(2 * p - 1 <= 2 * q + 1) by (nonlinear_arith)
            requires
                (2 * p - 1) * area <= (2 * q + 1) * area,
                area > 0,
        ;
        assert(p == q + 1);
        assert(2 * x == (2 * p - 1) * n) by (nonlinear_arith)
            requires
                (2 * p - 1) * n <= 2 * x,
                2 * x * m <= 2 * y * n,
                2 * y * n <= (2 * q + 1) * m * n,
                p == q + 1,
                m > 0,
        ;
        assert(2 * y == (2 * q + 1) * m) by (nonlinear_arith)
            requires
                2 * y <= (2 * q + 1) * m,
                (2 * p - 1) * n * m <= 2 * x * m,
                2 * x * m <= 2 * y * n,
                p == q + 1,
                n > 0,
        ;
        lemma_tie(x, n, q as nat);
        lemma_tie(y, m, q as nat);
    }
}

proof fn lemma_tie(x: nat, n: nat, q: nat)
    requires
        n > 0,
        2 * x == (2 * q + 1) * n,
    ensures
        2 * (x % n) == n,
{
    let rest = x - q * n;
    assert(2 * rest == n) by (nonlinear_arith)
        requires
            2 * x == (2 * q + 1) * n,
            rest == x - q * n,
    ;
    vstd::arithmetic::div_mod::lemma_fundamental_div_mod_converse(
        x as int,
        n as int,
        q as int,
        rest,
    );
}

/// Of two shares the larger one is not rounded to less: one part of a whole reaches another
/// wherever its exact value does.
pub proof fn law_larger_shares_reach_smaller_ones(a: nat, d: nat, b: nat, e: nat)
    requires
        a < MANTISSA_END,
        b < MANTISSA_END,
        0 < d < MANTISSA_END,
        0 < e < MANTISSA_END,
        a * e <= b * d,
    ensures
        fraction(b, e).at_least(fraction(a, d)),
{
    if a == 0 {
        lemma_fraction_of_nothing(d);
        law_fractions_are_not_negative(b, e);
    } else {
        assert(b > 0) by (nonlinear_arith)
            requires
                a * e <= b * d,
                a > 0,
                e > 0,
        ;
        let s = lemma_fraction_parts(a, d);
        let r = lemma_fraction_parts(b, e);
        lemma_integer_units(d as int, 24);
        lemma_integer_units(e as int, 24);
        let k = digits_under(d);
        let l = digits_under(e);
        let n = whole(d).mantissa as nat;
        let m = whole(e).mantissa as nat;
        let ts = two_to(s);
        let tr = two_to(r);
        let tk = two_to(k);
        let tl = two_to(l);
        assert(n == d * tk && m == e * tl);
        let x = a * ts;
        let y = b * tr;
        let first = k - s;
        let second = l - r;
        lemma_quotient_bounds(x, n);
        lemma_quotient_bounds(y, m);
        let p = nearest_quotient(x, n);
        let q = nearest_quotient(y, m);
        let low = if first <= second {
            first
        } else {
            second
        };
        lemma_packed_units(p, first, low);
        lemma_packed_units(q, second, low);
        lemma_less_in_units(fraction(b, e), fraction(a, d), low);
        lemma_two_to_adds(s, l);
        lemma_two_to_adds(r, k);
        let sl = two_to(s + l);
        let rk = two_to(r + k);
        lemma_two_to_grows(s + l);
        lemma_two_to_grows(r + k);
        // x * m == (a * e) * sl and y * n == (b * d) * rk.
        assert(x * m == (a * e) * sl) by (nonlinear_arith)
            requires
                x == a * ts,
                m == e * tl,
                sl == ts * tl,
        ;
        assert(y * n == (b * d) * rk) by (nonlinear_arith)
            requires
                y == b * tr,
                n == d * tk,
                rk == tr * tk,
        ;
        if first == second {
            assert(s + l == r + k);
            assert((a * e) * sl <= (b * d) * sl) by (nonlinear_arith)
                requires
                    a * e <= b * d,
            ;
            lemma_nearest_in_order(x, n, y, m);
            assert(two_to(0) == 1);
            assert(p * 1 == p && q * 1 == q);
        } else if first < second {
            let t = (second - first) as nat;
            lemma_two_to_monotone(1, t);
            assert(two_to(1) == 2) by {
                reveal_with_fuel(two_to, 2);
            }
            let w = two_to(t);
            assert(q * w >= 0x80_0000 * 2) by (nonlinear_arith)
                requires
                    q >= 0x80_0000,
                    w >= 2,
            ;
            assert(two_to(0) == 1);
            assert(p * 1 == p);
        } else {
            // s + l < r + k: the first value would be below its smallest mantissa.
            lemma_two_to_monotone(s + l + 1, r + k);
            assert(two_to(s + l + 1) == 2 * sl);
            assert(MANTISSA_START * n * m <= x * m) by (nonlinear_arith)
                requires
                    MANTISSA_START * n <= x,
            ;
            assert(y * n < MANTISSA_END * m * n) by (nonlinear_arith)
                requires
                    y < MANTISSA_END * m,
                    n > 0,
            ;
            assert((b * d) * rk >= 2 * ((a * e) * sl)) by (nonlinear_arith)
                requires
                    rk >= 2 * sl,
                    b * d >= a * e,
                    sl >= 0,
            ;
            assert(2 * (MANTISSA_START * n * m) == MANTISSA_END * m * n) by (nonlinear_arith)
                requires
                    MANTISSA_END == 2 * MANTISSA_START,
            ;
        }
    }
}

/// The number and its neighbours are far from the bounds of the exponents.
pub open spec fn is_modest(number: Single, bound: int) -> bool {
    number.is_canonical() && -bound <= number.exponent <= bound
}

proof fn lemma_over_scales(value: nat, shift: nat)
    requires
        value >= MANTISSA_END,
    ensures
        digits_over(value * two_to(shift)) == digits_over(value) + shift,
        value * two_to(shift) >= MANTISSA_END,
    decreases shift,
{
    if shift == 0 {
        assert(value * 1 == value);
    } else {
        lemma_over_scales(value, (shift - 1) as nat);
        let power = two_to((shift - 1) as nat);
        assert(value * (2 * power) == 2 * (value * power)) by (nonlinear_arith);
        assert((2 * (value * power)) / 2 == value * power);
    }
}

/// Whatever is rounded is rounded to the same number however its power of two is split.
proof fn lemma_rounded_splits(negative: bool, value: nat, shift: nat, exponent: int)
    ensures
        rounded(negative, value * two_to(shift), exponent) == rounded(
            negative,
            value,
            exponent + shift,
        ),
{
    if value < MANTISSA_END {
        lemma_rounded_scales(negative, value, shift, exponent);
    } else {
        lemma_over_scales(value, shift);
        let over = digits_over(value);
        lemma_two_to_adds(over, shift);
        lemma_two_to_grows(over);
        lemma_two_to_grows(shift);
        let d = two_to(over) as int;
        let p = two_to(shift) as int;
        let q = value as int / d;
        let r = value as int % d;
        vstd::arithmetic::div_mod::lemma_fundamental_div_mod(value as int, d);
        assert(value * p == q * (d * p) + r * p && 0 <= r * p < d * p) by (nonlinear_arith)
            requires
                value == d * q + r,
                0 <= r < d,
                p > 0,
        ;
        vstd::arithmetic::div_mod::lemma_fundamental_div_mod_converse(
            value * p,
            d * p,
            q,
            r * p,
        );
        assert((2 * (r * p) > d * p) == (2 * r > d) && (2 * (r * p) == d * p) == (2 * r == d))
            by (nonlinear_arith)
            requires
                p > 0,
        ;
    }
}

proof fn lemma_digits_over_bound(value: nat, most: nat)
    requires
        value < two_to(24 + most),
    ensures
        digits_over(value) <= most,
    decreases most,
{
    if value >= MANTISSA_END {
        if most == 0 {
            lemma_two_to_constants();
        } else {
            assert(two_to(24 + most) == 2 * two_to((24 + most - 1) as nat));
            assert(value / 2 < two_to((24 + most - 1) as nat));
            lemma_digits_over_bound(value / 2, (most - 1) as nat);
        }
    }
}

/// Rounding keeps the order of natural numbers.
proof fn lemma_rounding_in_order(value: nat, other: nat, exponent: int)
    requires
        value <= other,
        digits_over(other) <= 0x100_0000,
        -0x100_0000 <= exponent <= 0x100_0000,
    ensures
        rounded(false, value, exponent).exponent >= exponent - 24 || value == 0,
        rounded(false, other, exponent).exponent >= exponent - 24 || other == 0,
        value > 0 ==> rounded(false, value, exponent).units(exponent - 24) > 0,
        rounded(false, value, exponent).mantissa == 0 <==> value == 0,
        other > 0 ==> (value == 0 || rounded(false, value, exponent).units(exponent - 24)
            <= rounded(false, other, exponent).units(exponent - 24)),
{
    if other > 0 {
        lemma_rounded_units(other, exponent);
    }
    if value > 0 {
        if value >= MANTISSA_END {
            lemma_digits_over_monotone(value, other);
        } else {
            assert(digits_over(value) == 0);
        }
        lemma_rounded_units(value, exponent);
        let a = mantissa_of(value);
        let b = mantissa_of(other);
        let s = digits_over(value);
        let t = digits_over(other);
        let power = two_to(24) as int;
        lemma_two_to_grows(24);
        lemma_two_to_grows(s);
        lemma_two_to_grows(t);
        let x = (a * two_to(s)) as int;
        let y = (b * two_to(t)) as int;
        if other < MANTISSA_END {
            assert(s == 0 && t == 0);
            assert(two_to(0) == 1);
            assert(value * 1 == value && other * 1 == other);
            assert(x <= y);
        } else if s == t {
            let d = two_to(s);
            assert(value >= MANTISSA_END) by {
                assert(s >= 1) by {
                    lemma_digits_over(other);
                }
            }
            assert(value * d <= other * d) by (nonlinear_arith)
                requires
                    value <= other,
            ;
            lemma_nearest_in_order(value, d, other, d);
            assert(a * d <= b * d) by (nonlinear_arith)
                requires
                    a <= b,
            ;
        } else {
            if value < MANTISSA_END {
                lemma_digits_over(other);
            }
            assert(s < t);
            lemma_two_to_monotone(s + 1, t);
            let d = two_to(s);
            let w = two_to(t);
            assert(two_to(s + 1) == 2 * d);
            assert(a * d <= 0x100_0000 * d) by (nonlinear_arith)
                requires
                    a <= 0x100_0000,
            ;
            assert(b * w >= 0x80_0000 * (2 * d)) by (nonlinear_arith)
                requires
                    b >= 0x80_0000,
                    w >= 2 * d,
            ;
        }
        assert(x * power <= y * power) by (nonlinear_arith)
            requires
                x <= y,
                power > 0,
        ;
        assert(x * power > 0) by (nonlinear_arith)
            requires
                x > 0,
                power > 0,
        ;
    }
}

proof fn lemma_digits_over_monotone(value: nat, other: nat)
    requires
        value <= other,
    ensures
        digits_over(value) <= digits_over(other),
    decreases other,
{
    if value >= MANTISSA_END {
        lemma_digits_over_monotone(value / 2, other / 2);
    }
}

spec fn mantissa_of(value: nat) -> nat {
    if value < MANTISSA_END {
        value
    } else {
        nearest_quotient(value, two_to(digits_over(value)))
    }
}

proof fn lemma_rounded_units(value: nat, exponent: int)
    requires
        value > 0,
        digits_over(value) <= 0x100_0000,
        -0x100_0000 <= exponent <= 0x100_0000,
    ensures
        ({
            let number = rounded(false, value, exponent);
            &&& number.is_canonical()
            &&& number.mantissa > 0
            &&& !number.negative
            &&& exponent - 24 <= number.exponent <= exponent + digits_over(value) + 1
            &&& number.units(exponent - 24) == (mantissa_of(value) * two_to(digits_over(value)))
                * two_to(24)
            &&& mantissa_of(value) * two_to(digits_over(value)) > 0
            &&& mantissa_of(value) <= MANTISSA_END
            &&& value >= MANTISSA_END ==> mantissa_of(value) >= MANTISSA_START
        }),
{
    lemma_rounded_is_canonical(false, value, exponent);
    let number = rounded(false, value, exponent);
    if value < MANTISSA_END {
        lemma_digits_under(value);
        lemma_few_digits_under(value);
        let d = digits_under(value);
        let rest = (24 - d) as nat;
        lemma_two_to_adds(d, rest);
        let a = two_to(d);
        let b = two_to(rest);
        assert((value * a) * b == value * (a * b)) by (nonlinear_arith);
        assert(two_to(0) == 1);
        assert(value * 1 == value);
        assert(number.exponent - (exponent - 24) == rest);
    } else {
        let s = digits_over(value);
        lemma_digits_over(value);
        lemma_two_to_grows(s);
        lemma_nearest_quotient(value, two_to(s), MANTISSA_START as nat, MANTISSA_END as nat);
        let q = nearest_quotient(value, two_to(s));
        lemma_two_to_adds(s, 24);
        let p = two_to(s);
        let w = two_to(24);
        assert((q * p) * w == q * (p * w)) by (nonlinear_arith);
        assert(q * p > 0) by (nonlinear_arith)
            requires
                q > 0,
                p > 0,
        ;
        if q == MANTISSA_END {
            assert(two_to(s + 25) == 2 * two_to(s + 24));
            let t = two_to(s + 24);
            assert(0x80_0000 * (2 * t) == 0x100_0000 * t) by (nonlinear_arith);
            assert(number.exponent - (exponent - 24) == s + 25);
        } else {
            assert(number.exponent - (exponent - 24) == s + 24);
        }
    }
}

spec fn sized(value: int) -> nat {
    (if value < 0 {
        -value
    } else {
        value
    }) as nat
}

/// Rounding keeps the order of integers.
proof fn lemma_signed_rounding_in_order(value: int, other: int, exponent: int)
    requires
        value <= other,
        digits_over(sized(value)) <= 0x100_0000,
        digits_over(sized(other)) <= 0x100_0000,
        -0x100_0000 <= exponent <= 0x100_0000,
    ensures
        rounded(other < 0, sized(other), exponent).at_least(
            rounded(value < 0, sized(value), exponent),
        ),
{
    let a = rounded(value < 0, sized(value), exponent);
    let b = rounded(other < 0, sized(other), exponent);
    lemma_rounded_is_canonical(value < 0, sized(value), exponent);
    lemma_rounded_is_canonical(other < 0, sized(other), exponent);
    lemma_canonical_is_kept(a);
    lemma_canonical_is_kept(b);
    if value != 0 {
        lemma_rounded_units(sized(value), exponent);
    }
    if other != 0 {
        lemma_rounded_units(sized(other), exponent);
    }
    let low = if exponent - 24 <= 0 {
        exponent - 24
    } else {
        0
    };
    lemma_less_in_units(b, a, low);
    lemma_zero_units(low);
    let scale = two_to((exponent - 24 - low) as nat) as int;
    lemma_two_to_grows((exponent - 24 - low) as nat);
    if value != 0 {
        lemma_units_scale(a, exponent - 24, low);
        lemma_units_sign(a, low);
    }
    if other != 0 {
        lemma_units_scale(b, exponent - 24, low);
        lemma_units_sign(b, low);
    }
    let x = a.units(exponent - 24);
    let y = b.units(exponent - 24);
    if value > 0 {
        lemma_rounding_in_order(value as nat, other as nat, exponent);
        assert(x <= y);
        assert(x * scale <= y * scale) by (nonlinear_arith)
            requires
                x <= y,
                scale > 0,
        ;
    } else if other < 0 {
        lemma_rounding_in_order((-other) as nat, (-value) as nat, exponent);
        let c = rounded(false, sized(value), exponent);
        let d = rounded(false, sized(other), exponent);
        assert(a.mantissa == c.mantissa && a.exponent == c.exponent);
        assert(b.mantissa == d.mantissa && b.exponent == d.exponent);
        assert(x == -c.units(exponent - 24) && y == -d.units(exponent - 24));
        assert(x <= y);
        assert(x * scale <= y * scale) by (nonlinear_arith)
            requires
                x <= y,
                scale > 0,
        ;
    }
}

proof fn lemma_zero_units(low: int)
    requires
        low <= 0,
    ensures
        zero().units(low) == 0,
{
    assert(0 * two_to((0 - low) as nat) == 0);
}

/// The sum of two modest numbers, in units of any power of two below both.
proof fn lemma_sum_in_units(left: Single, right: Single, low: int)
    requires
        is_modest(left, 0x1_0000),
        is_modest(right, 0x1_0000),
        -0x4_0000 <= low <= -0x1_0000,
    ensures
        ({
            let sum = left.units(low) + right.units(low);
            &&& left.plus(right) == rounded(sum < 0, sized(sum), low)
            &&& digits_over(sized(sum)) <= 0x5_0002
            &&& digits_over(sized(left.units(low))) <= 0x5_0002
        }),
{
    reveal(Single::plus);
    lemma_canonical_is_kept(left);
    lemma_canonical_is_kept(right);
    let sum = left.units(low) + right.units(low);
    lemma_units_are_small(left, low);
    lemma_units_are_small(right, low);
    let most: nat = 0x5_0001;
    let bound = two_to(24 + most);
    assert(two_to(24 + most + 1) == 2 * bound);
    assert(sized(sum) < two_to(24 + most + 1));
    lemma_digits_over_bound(sized(sum), most + 1);
    lemma_digits_over_bound(sized(left.units(low)), most);
    if left.mantissa == 0 {
        lemma_zero_units(low);
        assert(left == zero());
        lemma_number_in_units(right, low);
    } else if right.mantissa == 0 {
        lemma_zero_units(low);
        assert(right == zero());
        lemma_number_in_units(left, low);
    } else {
        let high = if left.exponent <= right.exponent {
            left.exponent as int
        } else {
            right.exponent as int
        };
        lemma_units_scale(left, high, low);
        lemma_units_scale(right, high, low);
        let shift = (high - low) as nat;
        let p = two_to(shift) as int;
        lemma_two_to_grows(shift);
        let s = left.units(high) + right.units(high);
        assert(left.units(high) * p + right.units(high) * p == s * p) by (nonlinear_arith)
            requires
                s == left.units(high) + right.units(high),
        ;
        assert(sum == s * p);
        assert((s * p < 0) == (s < 0)) by (nonlinear_arith)
            requires
                p > 0,
        ;
        assert((-s) * p == -(s * p)) by (nonlinear_arith);
        assert(sized(sum) == sized(s) * two_to(shift));
        lemma_rounded_splits(s < 0, sized(s), shift, low);
        assert(low + shift == high);
    }
}

proof fn lemma_units_are_small(number: Single, low: int)
    requires
        is_modest(number, 0x1_0000),
        -0x4_0000 <= low <= -0x1_0000,
    ensures
        sized(number.units(low)) < two_to(24 + 0x5_0001),
{
    let shift = (number.exponent - low) as nat;
    lemma_two_to_monotone(shift, 0x5_0001);
    lemma_two_to_adds(24, 0x5_0001);
    lemma_two_to_constants();
    lemma_two_to_grows(shift);
    let m = number.mantissa as int;
    let p = two_to(shift) as int;
    let q = two_to(0x5_0001) as int;
    assert(0 <= m * p < 0x100_0000 * q) by (nonlinear_arith)
        requires
            0 <= m < 0x100_0000,
            0 < p <= q,
    ;
}

/// A number is what its units give.
proof fn lemma_number_in_units(number: Single, low: int)
    requires
        is_modest(number, 0x1_0000),
        low <= -0x1_0000,
    ensures
        number == rounded(number.units(low) < 0, sized(number.units(low)), low),
{
    let shift = (number.exponent - low) as nat;
    lemma_units_sign(number, low);
    lemma_canonical_is_kept(number);
    let m = number.mantissa as nat;
    lemma_two_to_grows(shift);
    let p = two_to(shift) as int;
    if m > 0 {
        assert(m * p > 0) by (nonlinear_arith)
            requires
                m > 0,
                p > 0,
        ;
        lemma_rounded_splits(number.negative, m, shift, low);
        assert(low + shift == number.exponent);
    }
}

/// Adding the same number to both keeps the order of two numbers.
pub proof fn law_adding_keeps_the_order(large: Single, small: Single, number: Single)
    requires
        is_modest(large, 0x1_0000),
        is_modest(small, 0x1_0000),
        is_modest(number, 0x1_0000),
        large.at_least(small),
    ensures
        large.plus(number).at_least(small.plus(number)),
        large.minus(number).at_least(small.minus(number)),
        number.plus(large).at_least(number.plus(small)),
{
    let low = -0x1_0000int;
    lemma_canonical_is_kept(large);
    lemma_canonical_is_kept(small);
    lemma_canonical_is_kept(number);
    lemma_less_in_units(large, small, low);
    let other = number.negated();
    lemma_sum_in_units(large, number, low);
    lemma_sum_in_units(small, number, low);
    lemma_sum_in_units(large, other, low);
    lemma_sum_in_units(small, other, low);
    law_operations_commute(large, number);
    law_operations_commute(small, number);
    lemma_signed_rounding_in_order(
        small.units(low) + number.units(low),
        large.units(low) + number.units(low),
        low,
    );
    lemma_signed_rounding_in_order(
        small.units(low) + other.units(low),
        large.units(low) + other.units(low),
        low,
    );
}

/// A sum of modest numbers is modest.
pub proof fn lemma_sums_are_modest(left: Single, right: Single, bound: int)
    requires
        is_modest(left, bound),
        is_modest(right, bound),
        0 <= bound <= 0x1_0000,
    ensures
        is_modest(left.plus(right), bound + 48),
        is_modest(left.minus(right), bound + 48),
{
    lemma_sum_is_modest(left, right, bound);
    lemma_canonical_is_kept(right);
    lemma_sum_is_modest(left, right.negated(), bound);
}

proof fn lemma_sum_is_modest(left: Single, right: Single, bound: int)
    requires
        is_modest(left, bound),
        is_modest(right, bound),
        0 <= bound <= 0x1_0000,
    ensures
        is_modest(left.plus(right), bound + 48),
{
    reveal(Single::plus);
    lemma_result_is_canonical(left, right);
    lemma_canonical_is_kept(left);
    lemma_canonical_is_kept(right);
    if left.mantissa > 0 && right.mantissa > 0 {
        let low = if left.exponent <= right.exponent {
            left.exponent as int
        } else {
            right.exponent as int
        };
        let sum = left.units(low) + right.units(low);
        if sum != 0 {
            let most = (bound - low) as nat;
            lemma_part_is_small(left, low, most);
            lemma_part_is_small(right, low, most);
            assert(two_to(24 + most + 1) == 2 * two_to(24 + most));
            lemma_digits_over_bound(sized(sum), most + 1);
            lemma_rounded_units(sized(sum), low);
        }
    }
}

proof fn lemma_part_is_small(number: Single, low: int, most: nat)
    requires
        number.is_canonical(),
        low <= number.exponent,
        number.exponent - low <= most,
    ensures
        sized(number.units(low)) < two_to(24 + most),
{
    let shift = (number.exponent - low) as nat;
    lemma_two_to_monotone(shift, most);
    lemma_two_to_adds(24, most);
    lemma_two_to_constants();
    lemma_two_to_grows(shift);
    let m = number.mantissa as int;
    let p = two_to(shift) as int;
    let q = two_to(most) as int;
    assert(0 <= m * p < 0x100_0000 * q) by (nonlinear_arith)
        requires
            0 <= m < 0x100_0000,
            0 < p <= q,
    ;
}

/// Shares of small numbers are modest.
pub proof fn lemma_fractions_are_modest(value: nat, divisor: nat)
    requires
        value < MANTISSA_END,
        0 < divisor < MANTISSA_END,
    ensures
        is_modest(fraction(value, divisor), 64),
{
    if value == 0 {
        lemma_fraction_of_nothing(divisor);
    } else {
        let shift = lemma_fraction_parts(value, divisor);
        let n = whole(divisor).mantissa as nat;
        lemma_quotient_bounds(value * two_to(shift), n);
        lemma_packed_units(
            nearest_quotient(value * two_to(shift), n),
            -shift - whole(divisor).exponent,
            -shift - whole(divisor).exponent,
        );
    }
}

/// Negation turns the order of two numbers, and a number that is not negative is at least the
/// negation of another such.
pub proof fn law_negation_turns_the_order(large: Single, small: Single)
    requires
        is_modest(large, 0x1_0000),
        is_modest(small, 0x1_0000),
    ensures
        large.at_least(small) ==> small.negated().at_least(large.negated()),
        !large.negative && !small.negative ==> large.at_least(small.negated()),
        is_modest(large.negated(), 0x1_0000),
        is_modest(small.negated(), 0x1_0000),
{
    let low = -0x1_0000int;
    lemma_canonical_is_kept(large);
    lemma_canonical_is_kept(small);
    let a = large.negated();
    let b = small.negated();
    lemma_canonical_is_kept(a);
    lemma_canonical_is_kept(b);
    lemma_less_in_units(large, small, low);
    lemma_less_in_units(b, a, low);
    lemma_less_in_units(large, b, low);
    lemma_units_sign(large, low);
    lemma_units_sign(small, low);
    lemma_units_sign(a, low);
    lemma_units_sign(b, low);
    lemma_zero_units(low);
}

/// Multiplying both with the same number that is not negative keeps the order of two numbers.
pub proof fn law_multiplying_keeps_the_order(large: Single, small: Single, number: Single)
    requires
        is_modest(large, 0x1_0000),
        is_modest(small, 0x1_0000),
        is_modest(number, 0x1_0000),
        !number.negative,
        large.at_least(small),
    ensures
        large.times(number).at_least(small.times(number)),
        is_modest(large.times(number), 0x2_0060),
        is_modest(small.times(number), 0x2_0060),
{
    let low = -0x1_0000int;
    lemma_canonical_is_kept(large);
    lemma_canonical_is_kept(small);
    lemma_canonical_is_kept(number);
    lemma_less_in_units(large, small, low);
    lemma_product_in_units(large, number, low);
    lemma_product_in_units(small, number, low);
    let x = small.units(low);
    let y = large.units(low);
    let m = number.mantissa as int;
    assert(x * m <= y * m) by (nonlinear_arith)
        requires
            x <= y,
            m >= 0,
    ;
    lemma_signed_rounding_in_order(x * m, y * m, low + number.exponent);
}

proof fn lemma_product_in_units(left: Single, right: Single, low: int)
    requires
        is_modest(left, 0x1_0000),
        is_modest(right, 0x1_0000),
        !right.negative,
        low == -0x1_0000,
    ensures
        ({
            let product = left.units(low) * right.mantissa;
            &&& left.times(right) == rounded(product < 0, sized(product), low + right.exponent)
            &&& digits_over(sized(product)) <= 0x100_0000
            &&& is_modest(left.times(right), 0x2_0060)
        }),
{
    reveal(Single::times);
    lemma_canonical_is_kept(left);
    lemma_canonical_is_kept(right);
    let shift = (left.exponent - low) as nat;
    let p = two_to(shift) as int;
    lemma_two_to_grows(shift);
    let m = left.mantissa as int;
    let n = right.mantissa as int;
    let product = left.units(low) * n;
    let size = (m * n) as nat;
    assert(0 <= m * n < 0x100_0000 * 0x100_0000) by (nonlinear_arith)
        requires
            0 <= m < 0x100_0000,
            0 <= n < 0x100_0000,
    ;
    assert((m * p) * n == (m * n) * p && (-(m * p)) * n == -((m * n) * p)) by (nonlinear_arith);
    assert((m * n) * p >= 0) by (nonlinear_arith)
        requires
            m * n >= 0,
            p > 0,
    ;
    assert(size > 0 ==> (m * n) * p > 0) by (nonlinear_arith)
        requires
            size == m * n,
            p > 0,
    ;
    assert(sized(product) == size * two_to(shift));
    lemma_rounded_splits(left.negative, size, shift, low + right.exponent);
    if size == 0 {
        assert(0 * two_to(shift) == 0);
    }
    lemma_two_to_monotone(shift, 0x2_0000);
    lemma_two_to_adds(48, 0x2_0000);
    lemma_two_to_adds(24, 24);
    lemma_two_to_constants();
    let q = two_to(0x2_0000) as int;
    assert(size * p < (0x100_0000 * 0x100_0000) * q) by (nonlinear_arith)
        requires
            0 <= size < 0x100_0000 * 0x100_0000,
            0 < p <= q,
    ;
    lemma_digits_over_bound(sized(product), 0x2_0018);
    lemma_rounded_is_canonical(left.negative, size, left.exponent + right.exponent);
    if size > 0 {
        lemma_digits_over_bound(size, 24);
        lemma_rounded_units(size, left.exponent + right.exponent);
        let positive = rounded(false, size, left.exponent + right.exponent);
        let result = left.times(right);
        assert(result.mantissa == positive.mantissa && result.exponent == positive.exponent);
    }
}

/// Nothing and one are modest numbers.
pub proof fn lemma_zero_is_modest()
    ensures
        is_modest(zero(), 0),
        is_modest(whole(1), 64),
        whole(1).at_least(zero()),
        !whole(1).negative,
{
    lemma_zero_and_one();
    law_order_of_zero(whole(1));
}

proof fn lemma_floor_root_exists(value: nat) -> (root: nat)
    ensures
        is_floor_root(value, root),
    decreases value,
{
    if value == 0 {
        assert(0 * 0 == 0 && (0 + 1) * (0 + 1) == 1) by (nonlinear_arith);
        0
    } else {
        let before = lemma_floor_root_exists((value - 1) as nat);
        let b = before as int;
        if (b + 1) * (b + 1) <= value {
            assert((b + 2) * (b + 2) == (b + 1) * (b + 1) + 2 * b + 3) by (nonlinear_arith);
            before + 1
        } else {
            before
        }
    }
}

/// The square root of a small square is its side.
pub proof fn law_squares_have_their_sides(side: nat)
    requires
        side * side < MANTISSA_END,
        side < MANTISSA_END,
    ensures
        whole(side * side).root() == whole(side),
        integer(-(side as int)).root() == zero(),
{
    reveal(Single::root);
    let square = side * side;
    lemma_integer_units(square as int, 24);
    lemma_integer_units(-(side as int), 24);
    if side == 0 {
        assert(0 * 0 == 0) by (nonlinear_arith);
    } else {
        assert(square > 0) by (nonlinear_arith)
            requires
                square == side * side,
                side > 0,
        ;
        let a = whole(square);
        let d = digits_under(square);
        lemma_digits_under(square);
        lemma_few_digits_under(square);
        let shift: int = if (a.exponent - 23) % 2 == 0 {
            23
        } else {
            24
        };
        let s = shift as nat;
        let half = ((d + shift) / 2) as nat;
        assert(d + s == half + half);
        lemma_two_to_adds(d, s);
        lemma_two_to_adds(half, half);
        let p = two_to(half);
        let r = side * p;
        let td = two_to(d);
        let ts = two_to(s);
        assert((square * td) * ts == r * r) by (nonlinear_arith)
            requires
                square == side * side,
                td * ts == p * p,
                r == side * p,
        ;
        let scaled = (a.mantissa * ts) as nat;
        assert(scaled == r * r);
        assert((r + 1) * (r + 1) == r * r + 2 * r + 1) by (nonlinear_arith);
        assert(is_floor_root(scaled, r));
        let floor = choose|floor: nat| is_floor_root(scaled, floor);
        lemma_floor_root_is_unique(scaled, r, floor);
        lemma_root_is_in_range(scaled, r, a.mantissa as nat, s);
        lemma_rounded_scales(false, side, half, -half);
        assert(digits_under(r) == 0);
        assert(r * two_to(0) == r) by {
            assert(two_to(0) == 1);
            assert(r * 1 == r);
        }
        assert((a.exponent - shift) / 2 == -half);
    }
}

proof fn lemma_root_is_in_range(scaled: nat, root: nat, mantissa: nat, shift: nat)
    requires
        MANTISSA_START <= mantissa < MANTISSA_END,
        shift == 23 || shift == 24,
        scaled == mantissa * two_to(shift),
        is_floor_root(scaled, root),
    ensures
        MANTISSA_START <= root < MANTISSA_END,
{
    lemma_two_to_constants();
    let p = two_to(shift) as int;
    let m = mantissa as int;
    let r = root as int;
    assert(0x80_0000 * 0x80_0000 <= m * p < 0x100_0000 * 0x100_0000) by (nonlinear_arith)
        requires
            0x80_0000 <= m < 0x100_0000,
            p == 0x80_0000 || p == 0x100_0000,
    ;
    assert(r < 0x100_0000) by (nonlinear_arith)
        requires
            r * r <= scaled,
            scaled < 0x100_0000 * 0x100_0000,
            r >= 0,
    ;
    assert(r >= 0x80_0000) by (nonlinear_arith)
        requires
            (r + 1) * (r + 1) > scaled,
            scaled >= 0x80_0000 * 0x80_0000,
            r >= 0,
    ;
}

/// Roots, products, quotients and absolute values of modest numbers are modest, and so are
/// natural numbers.
pub proof fn lemma_results_are_modest(left: Single, right: Single, bound: int)
    requires
        is_modest(left, bound),
        is_modest(right, bound),
        0 <= bound <= 0x1_0000,
    ensures
        is_modest(left.times(right), 2 * bound + 48),
        is_modest(left.over(right), 2 * bound + 48),
        is_modest(left.root(), bound + 48),
        is_modest(left.absolute(), bound),
        is_modest(left.negated(), bound),
        is_modest(left.smaller(right), bound),
        is_modest(left.larger(right), bound),
{
    reveal(Single::times);
    reveal(Single::over);
    reveal(Single::root);
    lemma_canonical_is_kept(left);
    lemma_canonical_is_kept(right);
    let m = left.mantissa as int;
    let n = right.mantissa as int;
    let size = (m * n) as nat;
    assert(0 <= m * n < 0x100_0000 * 0x100_0000) by (nonlinear_arith)
        requires
            0 <= m < 0x100_0000,
            0 <= n < 0x100_0000,
    ;
    let exponent = left.exponent + right.exponent;
    let sign = left.negative != right.negative;
    lemma_rounded_is_canonical(sign, size, exponent);
    if size > 0 {
        lemma_two_to_adds(24, 24);
        lemma_two_to_constants();
        lemma_digits_over_bound(size, 24);
        lemma_rounded_units(size, exponent);
        let positive = rounded(false, size, exponent);
        assert(left.times(right).exponent == positive.exponent);
    }
    if m > 0 && n > 0 {
        if m >= n {
            let product = (m * 0x80_0000) as nat;
            assert(0x80_0000 * n <= product < 0x100_0000 * n) by (nonlinear_arith)
                requires
                    product == m * 0x80_0000,
                    n <= m < 0x100_0000,
                    0x80_0000 <= n,
            ;
            lemma_quotient_bounds(product, n as nat);
        } else {
            let product = (m * 0x100_0000) as nat;
            assert(0x80_0000 * n <= product < 0x100_0000 * n) by (nonlinear_arith)
                requires
                    product == m * 0x100_0000,
                    0x80_0000 <= m < n,
                    n < 0x100_0000,
            ;
            lemma_quotient_bounds(product, n as nat);
        }
    }
    if m > 0 && !left.negative {
        let shift: int = if (left.exponent - 23) % 2 == 0 {
            23
        } else {
            24
        };
        let scaled = (m * two_to(shift as nat)) as nat;
        let root = lemma_floor_root_exists(scaled);
        let floor = choose|floor: nat| is_floor_root(scaled, floor);
        lemma_root_is_in_range(scaled, floor, m as nat, shift as nat);
    }
}

/// Natural numbers of up to 64 bits are modest, and so are their shares.
pub proof fn lemma_naturals_are_modest(value: nat)
    requires
        value <= 0xffff_ffff_ffff_ffff,
    ensures
        is_modest(whole(value), 128),
{
    if value > 0 {
        if value >= MANTISSA_END {
            lemma_few_digits_over(value);
        } else {
            assert(digits_over(value) == 0);
        }
        lemma_rounded_units(value, 0);
    }
}

/// Holding two numbers in the same range keeps their order.
pub proof fn law_holding_keeps_the_order(large: Single, small: Single, low: Single, high: Single)
    requires
        large.is_canonical(),
        small.is_canonical(),
        low.is_canonical(),
        high.is_canonical(),
        large.at_least(small),
    ensures
        large.held(low, high).at_least(small.held(low, high)),
        large.smaller(high).at_least(small.smaller(high)),
        large.larger(low).at_least(small.larger(low)),
{
    lemma_canonical_is_kept(large);
    lemma_canonical_is_kept(small);
    lemma_canonical_is_kept(low);
    lemma_canonical_is_kept(high);
    let a = large.larger(low);
    let b = small.larger(low);
    law_the_smaller_is_above_neither(large, low);
    law_the_smaller_is_above_neither(small, low);
    law_order_is_total(low, low);
    assert(a.at_least(b)) by {
        if small.less(low) {
            assert(b == low);
        } else {
            assert(b == small);
            law_order_is_transitive(a, large, small);
        }
    }
    lemma_smaller_in_order(large, small, high);
    lemma_smaller_in_order(a, b, high);
}

proof fn lemma_smaller_in_order(large: Single, small: Single, high: Single)
    requires
        large.is_canonical(),
        small.is_canonical(),
        high.is_canonical(),
        large.at_least(small),
    ensures
        large.smaller(high).at_least(small.smaller(high)),
{
    lemma_canonical_is_kept(large);
    lemma_canonical_is_kept(small);
    lemma_canonical_is_kept(high);
    law_the_smaller_is_above_neither(large, high);
    law_the_smaller_is_above_neither(small, high);
    law_order_is_total(high, high);
    if high.less(large) {
        assert(large.smaller(high) == high);
    } else {
        assert(large.smaller(high) == large);
        law_order_is_transitive(large, small, small.smaller(high));
    }
}

/// Taking a smaller number away leaves at least as much.
pub proof fn law_taking_less_leaves_more(number: Single, large: Single, small: Single)
    requires
        is_modest(number, 0x1_0000),
        is_modest(large, 0x1_0000),
        is_modest(small, 0x1_0000),
        large.at_least(small),
    ensures
        number.minus(small).at_least(number.minus(large)),
        small.at_least(zero()) ==> number.at_least(number.minus(small)),
{
    law_negation_turns_the_order(large, small);
    law_adding_keeps_the_order(small.negated(), large.negated(), number);
    lemma_zero_is_modest();
    law_negation_turns_the_order(small, zero());
    law_numbers_cancel(number);
    lemma_canonical_is_kept(zero());
    if small.at_least(zero()) {
        assert(zero().negated() == zero());
        law_adding_keeps_the_order(zero(), small.negated(), number);
    }
}

/// Half of the way is the same share of every even length.
pub proof fn lemma_half_of_a_length(half: nat)
    requires
        0 < half,
        2 * half < MANTISSA_END,
    ensures
        whole(2 * half).over(whole(2)).over(whole(2 * half)) == fraction(50, 100),
        whole(half).over(whole(2 * half)) == fraction(50, 100),
        fraction(50, 100).minus(fraction(50, 100)).absolute().times(whole(2)) == zero(),
{
    law_small_integers_divide(half, 2);
    assert(half * 2 == 2 * half);
    law_larger_shares_reach_smaller_ones(half, 2 * half, 50, 100);
    law_larger_shares_reach_smaller_ones(50, 100, half, 2 * half);
    lemma_fraction_is_canonical(half, 2 * half);
    lemma_fraction_is_canonical(50, 100);
    law_at_least_both_ways_is_equal(fraction(half, 2 * half), fraction(50, 100));
    law_numbers_cancel(fraction(50, 100));
    lemma_zero_and_one();
    law_small_integers_are_kept(2);
    law_numbers_cancel(whole(2));
    law_operations_commute(zero(), whole(2));
}

/// Nothing off the middle either way is all in the middle.
pub proof fn lemma_nothing_off_the_middle()
    ensures
        whole(1).minus(
            zero().times(zero()).plus(zero().times(zero())).root().over(whole(2).root()).held(
                zero(),
                whole(1),
            ),
        ) == whole(1),
{
    lemma_zero_and_one();
    law_numbers_cancel(zero());
    assert(zero().root() == zero()) by {
        reveal(Single::root);
    }
    assert(zero().over(whole(2).root()) == zero()) by {
        reveal(Single::over);
    }
    law_order_is_total(zero(), zero());
    lemma_nothing_is_held(zero());
    law_small_integers_are_kept(1);
    law_small_integers_are_kept(0);
    law_small_integers_add(1, 0);
}

/// Half of a number that is not below zero is not below zero either.
pub proof fn lemma_halves_are_not_negative(number: Single)
    requires
        number.is_canonical(),
        number.at_least(zero()),
    ensures
        number.over(whole(2)).at_least(zero()),
{
    reveal(Single::over);
    lemma_canonical_is_kept(number);
    law_small_integers_are_kept(2);
    if number.negative && number.mantissa > 0 {
        let low = if number.exponent <= 0 {
            number.exponent as int
        } else {
            0
        };
        lemma_zero_and_one();
        lemma_units_sign(number, low);
        lemma_zero_units(low);
        lemma_less_in_units(number, zero(), low);
    }
    lemma_integer_units(2, 24);
    law_order_of_zero(number.over(whole(2)));
}

/// Dividing two numbers by the same positive number keeps their order.
pub proof fn law_dividing_keeps_the_order(large: Single, small: Single, number: Single)
    requires
        is_modest(large, 0x400),
        is_modest(small, 0x400),
        is_modest(number, 0x400),
        !large.negative,
        !small.negative,
        is_positive(number),
        large.at_least(small),
    ensures
        large.over(number).at_least(small.over(number)),
        !large.over(number).negative,
{
    reveal(Single::over);
    lemma_canonical_is_kept(large);
    lemma_canonical_is_kept(small);
    lemma_canonical_is_kept(number);
    let result = large.over(number);
    let other = small.over(number);
    assert(!result.negative);
    if small.mantissa == 0 {
        assert(other == zero());
        law_order_of_zero(result);
    } else {
        lemma_zero_and_one();
        if large.mantissa == 0 {
            assert(large == zero());
            lemma_units_sign(small, -0x400);
            lemma_less_in_units(zero(), small, -0x400);
            assert(zero().units(-0x400) == 0) by {
                assert(0 * two_to(0x400) == 0);
            }
            assert(false);
        }
        assert(is_positive(large) && is_positive(small));
        if large.exponent < small.exponent {
            lemma_exponent_decides(large, small);
            lemma_less_in_units(large, small, large.exponent as int);
            assert(false);
        }
        let n = number.mantissa as nat;
        let ma = large.mantissa as nat;
        let mb = small.mantissa as nat;
        if large.exponent == small.exponent {
            let e = large.exponent as int;
            lemma_less_in_units(large, small, e);
            assert(two_to(0) == 1);
            assert(ma * 1 == ma && mb * 1 == mb);
            assert(ma >= mb);
        }
        let x: nat = if ma >= n {
            ma * 0x80_0000
        } else {
            ma * 0x100_0000
        };
        let y: nat = if mb >= n {
            mb * 0x80_0000
        } else {
            mb * 0x100_0000
        };
        let first: int = large.exponent - number.exponent - if ma >= n {
            23int
        } else {
            24
        };
        let second: int = small.exponent - number.exponent - if mb >= n {
            23int
        } else {
            24
        };
        assert(0x80_0000 * n <= x < 0x100_0000 * n && 0x80_0000 * n <= y < 0x100_0000 * n)
            by (nonlinear_arith)
            requires
                0x80_0000 <= n < 0x100_0000,
                0x80_0000 <= ma < 0x100_0000,
                0x80_0000 <= mb < 0x100_0000,
                x == if ma >= n {
                    ma * 0x80_0000
                } else {
                    ma * 0x100_0000
                },
                y == if mb >= n {
                    mb * 0x80_0000
                } else {
                    mb * 0x100_0000
                },
        ;
        lemma_quotient_bounds(x, n);
        lemma_quotient_bounds(y, n);
        let p = nearest_quotient(x, n);
        let q = nearest_quotient(y, n);
        assert(result == packed(false, p, first));
        assert(other == packed(false, q, second));
        assert(first >= second);
        lemma_packed_units(p, first, second);
        lemma_packed_units(q, second, second);
        lemma_less_in_units(result, other, second);
        assert(two_to(0) == 1);
        assert(q * 1 == q);
        if first == second {
            assert(x >= y);
            assert(y * n <= x * n) by (nonlinear_arith)
                requires
                    y <= x,
            ;
            lemma_nearest_in_order(y, n, x, n);
            assert(p * 1 == p);
        } else {
            let t = (first - second) as nat;
            lemma_two_to_monotone(1, t);
            assert(two_to(1) == 2) by {
                reveal_with_fuel(two_to, 2);
            }
            let w = two_to(t);
            assert(p * w >= 0x80_0000 * 2) by (nonlinear_arith)
                requires
                    p >= 0x80_0000,
                    w >= 2,
            ;
        }
    }
}

/// Two positive numbers of which neither is less are the same number.
pub proof fn lemma_equal_order_is_equal(left: Single, right: Single)
    requires
        is_positive(left),
        is_positive(right),
        !left.less(right),
        !right.less(left),
    ensures
        left == right,
{
    lemma_canonical_is_kept(left);
    lemma_canonical_is_kept(right);
    if left.exponent < right.exponent {
        lemma_exponent_decides(left, right);
        lemma_less_in_units(left, right, left.exponent as int);
    } else if right.exponent < left.exponent {
        lemma_exponent_decides(right, left);
        lemma_less_in_units(right, left, right.exponent as int);
    } else {
        let e = left.exponent as int;
        lemma_less_in_units(left, right, e);
        lemma_less_in_units(right, left, e);
        assert(two_to(0) == 1);
        assert(left.mantissa * 1 == left.mantissa && right.mantissa * 1 == right.mantissa);
    }
}

/// The sum of two numbers that are not negative is not negative.
pub proof fn lemma_sums_are_not_negative(left: Single, right: Single)
    requires
        left.is_canonical(),
        right.is_canonical(),
        !left.negative,
        !right.negative,
    ensures
        !left.plus(right).negative,
{
    reveal(Single::plus);
    lemma_canonical_is_kept(left);
    lemma_canonical_is_kept(right);
    let low = if left.exponent <= right.exponent {
        left.exponent as int
    } else {
        right.exponent as int
    };
    lemma_units_sign(left, low);
    lemma_units_sign(right, low);
}

} // verus!
