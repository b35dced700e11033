//! Small integer helpers with exact contracts.

use vstd::prelude::*;

verus! {

/// Largest monotonic clock reading that callers hand in, in nanoseconds (about
/// 292 years). It leaves room to add any delay of this library to a reading.
pub const CLOCK_LIMIT: u64 = 0x7fff_ffff_ffff_ffff;

pub open spec fn min_int(left: int, right: int) -> int {
    if left <= right { left } else { right }
}

pub open spec fn max_int(left: int, right: int) -> int {
    if left >= right { left } else { right }
}

pub open spec fn abs_int(value: int) -> int {
    if value < 0 { -value } else { value }
}

/// `value` held inside `low..=high`.
pub open spec fn clamp_int(value: int, low: int, high: int) -> int {
    max_int(low, min_int(high, value))
}

/// Quotient of two naturals, rounded up.
pub open spec fn div_up(value: int, divisor: int) -> int {
    (value + divisor - 1) / divisor
}

pub fn min_u32(left: u32, right: u32) -> (result: u32)
    ensures
        result == min_int(left as int, right as int),
{
    if left <= right { left } else { right }
}

pub fn max_u32(left: u32, right: u32) -> (result: u32)
    ensures
        result == max_int(left as int, right as int),
{
    if left >= right { left } else { right }
}

pub fn clamp_u32(value: u32, low: u32, high: u32) -> (result: u32)
    requires
        low <= high,
    ensures
        result == clamp_int(value as int, low as int, high as int),
{
    max_u32(low, min_u32(high, value))
}

pub fn min_u64(left: u64, right: u64) -> (result: u64)
    ensures
        result == min_int(left as int, right as int),
{
    if left <= right { left } else { right }
}

pub fn max_u64(left: u64, right: u64) -> (result: u64)
    ensures
        result == max_int(left as int, right as int),
{
    if left >= right { left } else { right }
}

pub fn min_i64(left: i64, right: i64) -> (result: i64)
    ensures
        result == min_int(left as int, right as int),
{
    if left <= right { left } else { right }
}

pub fn max_i64(left: i64, right: i64) -> (result: i64)
    ensures
        result == max_int(left as int, right as int),
{
    if left >= right { left } else { right }
}

/// `value` held inside the range of coordinates.
pub fn clamp_to_i32(value: i64) -> (result: i32)
    ensures
        result == clamp_int(value as int, i32::MIN as int, i32::MAX as int),
{
    if value < -0x8000_0000 {
        i32::MIN
    } else if value > 0x7fff_ffff {
        i32::MAX
    } else {
        value as i32
    }
}

/// Distance between two unsigned values.
pub fn abs_diff_u32(left: u32, right: u32) -> (result: u32)
    ensures
        result == abs_int(left - right),
{
    if left >= right { left - right } else { right - left }
}

/// Distance between two channel values.
pub fn abs_diff_u8(left: u8, right: u8) -> (result: u8)
    ensures
        result == abs_int(left - right),
{
    if left >= right { left - right } else { right - left }
}

/// The sum of two edges, stopping at the largest coordinate.
pub open spec fn saturating_sum(left: int, right: int) -> int {
    min_int(left + right, u32::MAX as int)
}

/// Time from `earlier` to `later`, zero where `earlier` is the later one.
pub open spec fn elapsed(later: u64, earlier: u64) -> u64 {
    if later >= earlier { (later - earlier) as u64 } else { 0 }
}

pub fn elapsed_since(later: u64, earlier: u64) -> (result: u64)
    ensures
        result == elapsed(later, earlier),
{
    if later >= earlier { later - earlier } else { 0 }
}

/// `value` moved from a span of `source` units to one of `target` units and
/// rounded down, never past the end of the target.
pub open spec fn scaled_down(value: int, target: int, source: int) -> int {
    min_int((value * target) / source, target)
}

/// `value` moved from a span of `source` units to one of `target` units and
/// rounded up, never past the end of the target.
pub open spec fn scaled_up(value: int, target: int, source: int) -> int {
    min_int(div_up(value * target, source), target)
}

/// Moves a coordinate to the target span, rounding down. The product of the two
/// factors has to fit in 64 bits.
pub fn scale_floor(value: u64, target: u32, source: u32) -> (result: u32)
    requires
        source > 0,
        value * target <= u64::MAX,
    ensures
        result == scaled_down(value as int, target as int, source as int),
        result <= target,
{
    let product: u64 = value * (target as u64);
    let quotient: u64 = product / (source as u64);
    min_u64(quotient, target as u64) as u32
}

/// Moves a coordinate to the target span, rounding up. The product of the two
/// factors has to fit in 64 bits.
pub fn scale_ceil(value: u64, target: u32, source: u32) -> (result: u32)
    requires
        source > 0,
        value * target <= u64::MAX,
    ensures
        result == scaled_up(value as int, target as int, source as int),
        result <= target,
{
    let product: u64 = value * (target as u64);
    let divisor: u64 = source as u64;
    let quotient: u64 = product / divisor;
    proof {
        vstd::arithmetic::div_mod::lemma_fundamental_div_mod(product as int, divisor as int);
        assert(quotient <= divisor * quotient) by (nonlinear_arith)
            requires
                divisor >= 1,
        ;
    }
    let up: u64 = if product % divisor == 0 { quotient } else { quotient + 1 };
    proof {
        lemma_div_up(product as int, divisor as int);
    }
    min_u64(up, target as u64) as u32
}

/// Rounding up adds one to the quotient exactly where the division leaves a rest.
pub proof fn lemma_div_up(value: int, divisor: int)
    requires
        value >= 0,
        divisor > 0,
    ensures
        div_up(value, divisor) == if value % divisor == 0 {
            value / divisor
        } else {
            value / divisor + 1
        },
        div_up(value, divisor) >= value / divisor,
{
    let q = value / divisor;
    let r = value % divisor;
    vstd::arithmetic::div_mod::lemma_fundamental_div_mod(value, divisor);
    if r == 0 {
        assert(value + divisor - 1 == divisor * q + (divisor - 1));
        vstd::arithmetic::div_mod::lemma_fundamental_div_mod_converse(
            value + divisor - 1,
            divisor,
            q,
            divisor - 1,
        );
    } else {
        assert(divisor * (q + 1) == divisor * q + divisor) by (nonlinear_arith);
        assert(value + divisor - 1 == divisor * (q + 1) + (r - 1));
        vstd::arithmetic::div_mod::lemma_fundamental_div_mod_converse(
            value + divisor - 1,
            divisor,
            q + 1,
            r - 1,
        );
    }
}

/// A scaled coordinate never lies past the end of the target, and rounding down
/// never gives more than rounding up.
pub proof fn lemma_scaling_keeps_bounds(value: int, target: int, source: int)
    requires
        value >= 0,
        target >= 0,
        source > 0,
    ensures
        0 <= scaled_down(value, target, source) <= scaled_up(value, target, source) <= target,
        value == 0 ==> scaled_down(value, target, source) == 0,
        value == source ==> scaled_up(value, target, source) == target,
{
    assert(value * target >= 0) by (nonlinear_arith)
        requires
            value >= 0,
            target >= 0,
    ;
    lemma_div_up(value * target, source);
    vstd::arithmetic::div_mod::lemma_div_pos_is_pos(value * target, source);
    if value == source {
        assert(value * target == source * target);
        vstd::arithmetic::div_mod::lemma_div_multiples_vanish(target, source);
        vstd::arithmetic::div_mod::lemma_mod_multiples_basic(target, source);
        assert(target * source == source * target) by (nonlinear_arith);
    }
    if value == 0 {
        assert(value * target == 0);
    }
}

/// A coordinate inside the source span moves to the target span by the ratio of the spans:
/// rounded down it is the last unit that starts at or before it, rounded up the first that
/// starts at or behind it.
pub proof fn law_scaling_keeps_the_ratio(value: int, target: int, source: int)
    requires
        0 <= value <= source,
        0 < source,
        0 <= target,
    ensures
        scaled_down(value, target, source) * source <= value * target,
        value * target < (scaled_down(value, target, source) + 1) * source,
        scaled_up(value, target, source) * source >= value * target,
        (scaled_up(value, target, source) - 1) * source < value * target,
        scaled_down(value, target, source) <= scaled_up(value, target, source),
        scaled_down(0, target, source) == 0,
        scaled_up(source, target, source) == target,
        0 <= scaled_down(value, target, source) <= scaled_up(value, target, source) <= target,
{
    let product = value * target;
    assert(0 <= product <= source * target) by (nonlinear_arith)
        requires
            0 <= value <= source,
            0 <= target,
            product == value * target,
    ;
    let floor = product / source;
    assert(floor * source <= product < (floor + 1) * source && 0 <= floor <= target)
        by (nonlinear_arith)
        requires
            floor == product / source,
            0 < source,
            0 <= product <= source * target,
    ;
    lemma_div_up(product, source);
    let above = product + source - 1;
    let ceiling = above / source;
    assert(ceiling * source <= above < (ceiling + 1) * source) by (nonlinear_arith)
        requires
            ceiling == above / source,
            0 < source,
    ;
    assert((ceiling - 1) * source == ceiling * source - source) by (nonlinear_arith);
    assert((ceiling + 1) * source == ceiling * source + source) by (nonlinear_arith);
    assert(ceiling <= target) by (nonlinear_arith)
        requires
            ceiling * source <= product + source - 1,
            product <= source * target,
            source > 0,
    ;
    assert(floor <= ceiling) by (nonlinear_arith)
        requires
            floor * source <= product,
            product <= ceiling * source,
            source > 0,
    ;
    assert((0 * target) / source == 0) by (nonlinear_arith)
        requires
            source > 0,
    ;
    let whole = source * target + source - 1;
    assert(whole / source == target) by (nonlinear_arith)
        requires
            whole == source * target + source - 1,
            source > 0,
    ;
}

/// Time does not run backwards, and otherwise is what lies between.
pub proof fn law_elapsed_time_is_the_difference(later: u64, earlier: u64)
    ensures
        later >= earlier ==> elapsed(later, earlier) == later - earlier,
        later < earlier ==> elapsed(later, earlier) == 0,
{
}

/// Holding a number in a range keeps it there, and leaves numbers of the range alone.
pub proof fn law_held_numbers_stay_in_range(value: int, low: int, high: int)
    requires
        low <= high,
    ensures
        low <= clamp_int(value, low, high) <= high,
        low <= value <= high ==> clamp_int(value, low, high) == value,
        value < low ==> clamp_int(value, low, high) == low,
        value > high ==> clamp_int(value, low, high) == high,
        min_int(low, high) == low && max_int(low, high) == high,
        min_int(high, low) == low && max_int(high, low) == high,
        abs_int(value) >= 0 && (abs_int(value) == value || abs_int(value) == -value),
        low + high <= u32::MAX ==> saturating_sum(low, high) == low + high,
        low + high > u32::MAX ==> saturating_sum(low, high) == u32::MAX,
{
}

} // verus!
