//! Threshold tests on quotients of areas and lengths.
//!
//! A share of the screen is compared with a limit such as 0.08 after both areas
//! and their quotient have been rounded to a binary format of a fixed precision.
//! The tests below decide the same comparison in integers, with no rounding left
//! to the machine.

use vstd::prelude::*;

verus! {

/// A limit as the binary fraction nearest to its decimal: `mantissa` divided by
/// `denominator`, a power of two. The mantissa fills the precision of its format,
/// so that its two neighbours there are one unit away.
#[derive(Clone, Copy, Debug)]
pub struct Limit {
    pub mantissa: u64,
    pub denominator: u64,
}

/// Precision of the format in which window areas are compared.
pub const WIDE_PRECISION: u64 = 0x20_0000_0000_0000;

/// Precision of the format in which lengths and pixel counts are compared.
pub const NARROW_PRECISION: u64 = 0x100_0000;

impl Limit {
    /// The operands fit the products below.
    pub open spec fn in_range(self) -> bool {
        &&& 0 < self.mantissa < WIDE_PRECISION
        &&& 0 < self.denominator <= 0x400_0000_0000_0000
    }

    /// The quotient of `value` and `whole`, rounded to the nearest number of the
    /// format (to an even mantissa where two are as near), is at least the limit:
    /// the exact quotient is not below the middle between the limit and its lower
    /// neighbour.
    pub open spec fn reached(self, value: int, whole: int) -> bool {
        if self.mantissa % 2 == 0 {
            value * (2 * self.denominator) >= (2 * self.mantissa - 1) * whole
        } else {
            value * (2 * self.denominator) > (2 * self.mantissa - 1) * whole
        }
    }

    /// The rounded quotient is at most the limit: the exact quotient is not above
    /// the middle between the limit and its upper neighbour.
    pub open spec fn kept(self, value: int, whole: int) -> bool {
        if self.mantissa % 2 == 0 {
            value * (2 * self.denominator) <= (2 * self.mantissa + 1) * whole
        } else {
            value * (2 * self.denominator) < (2 * self.mantissa + 1) * whole
        }
    }

    pub fn is_reached(self, value: u128, whole: u128) -> (result: bool)
        requires
            self.in_range(),
            value <= 0x2_0000_0000_0000_0000,
            whole <= 0x2_0000_0000_0000_0000,
        ensures
            result == self.reached(value as int, whole as int),
    {
        proof {
            lemma_products_fit(self, value as int, whole as int);
        }
        let scaled: u128 = value * (2 * self.denominator as u128);
        let middle: u128 = (2 * self.mantissa as u128 - 1) * whole;
        if self.mantissa % 2 == 0 { scaled >= middle } else { scaled > middle }
    }

    pub fn is_kept(self, value: u128, whole: u128) -> (result: bool)
        requires
            self.in_range(),
            value <= 0x2_0000_0000_0000_0000,
            whole <= 0x2_0000_0000_0000_0000,
        ensures
            result == self.kept(value as int, whole as int),
    {
        proof {
            lemma_products_fit(self, value as int, whole as int);
        }
        let scaled: u128 = value * (2 * self.denominator as u128);
        let middle: u128 = (2 * self.mantissa as u128 + 1) * whole;
        if self.mantissa % 2 == 0 { scaled <= middle } else { scaled < middle }
    }
}

proof fn lemma_products_fit(limit: Limit, value: int, whole: int)
    requires
        limit.in_range(),
        0 <= value <= 0x2_0000_0000_0000_0000,
        0 <= whole <= 0x2_0000_0000_0000_0000,
    ensures
        0 <= value * (2 * limit.denominator) <= u128::MAX,
        0 <= (2 * limit.mantissa - 1) * whole <= u128::MAX,
        0 <= (2 * limit.mantissa + 1) * whole <= u128::MAX,
{
    let bound: int = 0x2_0000_0000_0000_0000;
    let d = 2 * limit.denominator;
    let low = 2 * limit.mantissa - 1;
    let high = 2 * limit.mantissa + 1;
    assert(0 <= value * d <= bound * 0x800_0000_0000_0000) by (nonlinear_arith)
        requires
            0 <= value <= bound,
            0 <= d <= 0x800_0000_0000_0000,
    ;
    assert(0 <= low * whole <= 0x80_0000_0000_0000 * bound) by (nonlinear_arith)
        requires
            0 <= whole <= bound,
            0 <= low <= 0x80_0000_0000_0000,
    ;
    assert(0 <= high * whole <= 0x80_0000_0000_0000 * bound) by (nonlinear_arith)
        requires
            0 <= whole <= bound,
            0 <= high <= 0x80_0000_0000_0000,
    ;
}

/// Distance between neighbouring numbers of the format around `value`.
pub open spec fn spacing(value: nat, precision: nat) -> nat
    decreases value,
{
    if value < precision || value == 0 {
        1
    } else {
        2 * spacing(value / 2, precision)
    }
}

/// `value` rounded to the nearest number of the format, to an even mantissa where
/// two are as near.
pub open spec fn nearest(value: nat, precision: nat) -> nat {
    let unit = spacing(value, precision);
    let steps = value / unit;
    let rest = value % unit;
    if 2 * rest > unit || (2 * rest == unit && steps % 2 == 1) {
        (steps + 1) * unit
    } else {
        steps * unit
    }
}

/// Numbers below the precision are kept as they are.
pub proof fn law_small_numbers_are_kept(value: nat, precision: nat)
    requires
        value < precision,
    ensures
        nearest(value, precision) == value,
{
    assert(spacing(value, precision) == 1);
    assert(value / 1 == value && value % 1 == 0);
}

/// Rounds a number to the format.
pub fn round_to_nearest(value: u64, precision: u64) -> (result: u128)
    requires
        precision >= 2,
    ensures
        result == nearest(value as nat, precision as nat),
        result <= 0x2_0000_0000_0000_0000,
{
    let mut unit: u64 = 1;
    let mut rest_value: u64 = value;
    while rest_value >= precision
        invariant
            precision >= 2,
            unit >= 1,
            rest_value == 0 ==> unit == 1,
            unit * rest_value <= value,
            spacing(value as nat, precision as nat) == unit * spacing(
                rest_value as nat,
                precision as nat,
            ),
        decreases rest_value,
    {
        let half: u64 = rest_value / 2;
        proof {
            let inner = spacing(half as nat, precision as nat);
            let u = unit as int;
            let r = rest_value as int;
            assert(u * (2 * inner) == (2 * u) * inner) by (nonlinear_arith);
            assert((2 * u) * half <= u * r) by (nonlinear_arith)
                requires
                    2 * half <= r,
                    u >= 0,
            ;
            assert(2 * u <= (2 * u) * half) by (nonlinear_arith)
                requires
                    half >= 1,
                    u >= 0,
            ;
        }
        unit = unit * 2;
        rest_value = half;
    }
    proof {
        let u = unit as int;
        assert(spacing(rest_value as nat, precision as nat) == 1);
        assert(u * 1 == u);
        vstd::arithmetic::div_mod::lemma_fundamental_div_mod(value as int, u);
        let q = value as int / u;
        assert((q + 1) * u == u * q + u) by (nonlinear_arith);
        assert(q * u == u * q) by (nonlinear_arith);
        if rest_value > 0 {
            assert(u <= u * rest_value) by (nonlinear_arith)
                requires
                    rest_value >= 1,
                    u >= 0,
            ;
        }
    }
    let steps: u64 = value / unit;
    let rest: u64 = value % unit;
    let wide_unit: u128 = unit as u128;
    let wide_steps: u128 = steps as u128;
    if 2 * rest as u128 > wide_unit || (2 * rest as u128 == wide_unit && steps % 2 == 1) {
        (wide_steps + 1) * wide_unit
    } else {
        wide_steps * wide_unit
    }
}

/// A share that is exactly the limit, or more, reaches it, and one at the limit or less keeps
/// it; a share a whole step below the limit does not reach it, and one a whole step above
/// does not keep it. More of the same whole never reaches less.
pub proof fn law_limits_are_reached_and_kept(limit: Limit, value: int, more: int, whole: int)
    requires
        limit.in_range(),
        whole > 0,
        0 <= value <= more,
    ensures
        value * limit.denominator >= limit.mantissa * whole ==> limit.reached(value, whole),
        value * limit.denominator <= (limit.mantissa - 1) * whole ==> !limit.reached(value, whole),
        value * limit.denominator <= limit.mantissa * whole ==> limit.kept(value, whole),
        value * limit.denominator >= (limit.mantissa + 1) * whole ==> !limit.kept(value, whole),
        limit.reached(value, whole) ==> limit.reached(more, whole),
        limit.kept(more, whole) ==> limit.kept(value, whole),
        limit.reached(value, whole) || limit.kept(value, whole),
{
    let d = limit.denominator as int;
    let m = limit.mantissa as int;
    assert(value * (2 * d) == 2 * (value * d)) by (nonlinear_arith);
    assert(more * (2 * d) == 2 * (more * d)) by (nonlinear_arith);
    assert(value * d <= more * d) by (nonlinear_arith)
        requires
            value <= more,
            d > 0,
    ;
    assert((2 * m - 1) * whole == 2 * (m * whole) - whole) by (nonlinear_arith);
    assert((2 * m + 1) * whole == 2 * (m * whole) + whole) by (nonlinear_arith);
    assert((m - 1) * whole == m * whole - whole) by (nonlinear_arith);
    assert((m + 1) * whole == m * whole + whole) by (nonlinear_arith);
}

/// Rounding moves a number by at most half of the distance between its neighbours, and numbers
/// of the format stay.
pub proof fn law_rounding_moves_by_half_a_step(value: nat, precision: nat)
    requires
        precision >= 2,
    ensures
        spacing(value, precision) >= 1,
        2 * (nearest(value, precision) - value) <= spacing(value, precision),
        2 * (value - nearest(value, precision)) <= spacing(value, precision),
        value % spacing(value, precision) == 0 ==> nearest(value, precision) == value,
        value < precision ==> spacing(value, precision) == 1,
        value >= precision ==> spacing(value, precision) * precision <= 2 * value,
        value / spacing(value, precision) < precision,
{
    lemma_spacing(value, precision);
    let unit = spacing(value, precision);
    let steps = value / unit;
    vstd::arithmetic::div_mod::lemma_fundamental_div_mod(value as int, unit as int);
    assert(unit * steps == steps * unit) by (nonlinear_arith);
    assert((steps + 1) * unit == steps * unit + unit) by (nonlinear_arith);
}

proof fn lemma_spacing(value: nat, precision: nat)
    requires
        precision >= 2,
    ensures
        spacing(value, precision) >= 1,
        value / spacing(value, precision) < precision,
        value >= precision ==> spacing(value, precision) * precision <= 2 * value,
    decreases value,
{
    if value >= precision {
        let half = value / 2;
        let inner = spacing(half, precision);
        lemma_spacing(half, precision);
        vstd::arithmetic::div_mod::lemma_div_denominator(value as int, 2, inner as int);
        assert((2 * inner) * precision == 2 * (inner * precision)) by (nonlinear_arith);
        if half < precision {
            assert(inner == 1);
            assert(1 * precision == precision);
        }
    } else {
        assert(value / 1 == value);
    }
}

} // verus!
