//! Exact decimal amounts.
//!
//! Prices, sizes and capital are whole numbers of ten-thousandths: the amount
//! `2.25` is the integer `22_500`. Sums and differences of such amounts are
//! exact, so a spread's value does not depend on how its legs were added up.
use vstd::prelude::*;

verus! {

/// Units per whole: an amount `a` stands for the decimal number `a / SCALE`.
pub const SCALE: i64 = 10_000;

/// Units per hundredth of a whole.
pub const CENT: i64 = 100;

/// Largest magnitude of a quoted price or size, in units (`10^11` wholes).
pub const AMOUNT_LIMIT: i64 = 1_000_000_000_000_000;

/// `x` lies within the quoted range.
pub open spec fn is_amount(x: int) -> bool {
    -AMOUNT_LIMIT <= x <= AMOUNT_LIMIT
}

/// Tests `is_amount`.
pub fn amount_in_range(x: i64) -> (r: bool)
    ensures
        r == is_amount(x as int),
{
    -AMOUNT_LIMIT <= x && x <= AMOUNT_LIMIT
}

/// The quotient of `a` by a positive `b`, rounded down.
pub fn floor_div(a: i128, b: i128) -> (q: i128)
    requires
        b > 0,
    ensures
        q == a / b,
        q * b <= a < (q + 1) * b,
{
    proof {
        lemma_floor_div_bounds(a as int, b as int);
    }
    match a.checked_div_euclid(b) {
        Some(q) => q,
        None => 0,
    }
}

/// Rounding down by a positive divisor never leaves the range spanned by the
/// dividend and zero, and brackets the dividend.
pub proof fn lemma_floor_div_bounds(a: int, b: int)
    requires
        b > 0,
    ensures
        a >= 0 ==> 0 <= a / b <= a,
        a < 0 ==> a <= a / b < 0,
        (a / b) * b <= a < (a / b + 1) * b,
{
    assert(a >= 0 ==> 0 <= a / b <= a) by (nonlinear_arith)
        requires
            b > 0,
    ;
    assert(a < 0 ==> a <= a / b < 0) by (nonlinear_arith)
        requires
            b > 0,
    ;
    assert((a / b) * b <= a < (a / b + 1) * b) by (nonlinear_arith)
        requires
            b > 0,
    ;
}

/// The mean of `count` amounts that add up to `total`, rounded down to a unit.
pub open spec fn mean_of(total: int, count: int) -> int {
    total / count
}

/// Computes `mean_of` for amounts within the quoted range.
pub fn mean(total: i64, count: i64) -> (m: i64)
    requires
        count > 0,
    ensures
        m == mean_of(total as int, count as int),
        total >= 0 ==> 0 <= m <= total,
        total < 0 ==> total <= m < 0,
{
    proof {
        lemma_floor_div_bounds(total as int, count as int);
    }
    let q: i128 = floor_div(total as i128, count as i128);
    q as i64
}

} // verus!
