//! The pricing formulas of the pool, as spec functions and as executable
//! functions proved against them.

use vstd::prelude::*;

verus! {

/// The fee rate is a fraction `fee_ppm / FEE_SCALE`, given in parts per
/// million; a valid fee rate lies in `[0, 1)`.
pub const FEE_SCALE: u32 = 1_000_000;

/// Why an operation on the pool or an account was refused.
#[derive(Debug, Clone, Copy, PartialEq, Eq, Structural)]
pub enum PoolError {
    /// An amount that must be positive (or non-negative for swaps) was not.
    InvalidArgument,
    /// The reserves cannot serve the request: a reserve that the price
    /// divides by is empty or negative, as much output is asked for as the
    /// reserve holds or more, or more shares are burned than were issued.
    InsufficientLiquidity,
    /// A resulting amount does not fit in an `i32`.
    Overflow,
}

/// Exact-input price: for `dx` units paid into reserve `x`, the units taken
/// out of reserve `y`. With `a = dx / x` and `r = 1 - fee`, this is
/// `floor(y * a * r / (1 + a * r))`, written over integers.
pub open spec fn input_price(dx: int, x: int, y: int, fee_ppm: int) -> int {
    (y * dx * (FEE_SCALE - fee_ppm)) / (x * FEE_SCALE + dx * (FEE_SCALE - fee_ppm))
}

/// Exact-output price: for `dy` units taken out of reserve `y`, the units
/// to pay into reserve `x`. With `b = dy / y` and `r = 1 - fee`, this is
/// `floor(x * b / ((1 - b) * r))`, written over integers.
pub open spec fn output_price(dy: int, x: int, y: int, fee_ppm: int) -> int {
    (x * dy * FEE_SCALE) / ((y - dy) * (FEE_SCALE - fee_ppm))
}

/// When an exact-input quote is refused, and why.
pub open spec fn input_price_error(dx: int, x: int, y: int) -> Option<PoolError> {
    if dx < 0 {
        Some(PoolError::InvalidArgument)
    } else if x <= 0 || y < 0 {
        Some(PoolError::InsufficientLiquidity)
    } else {
        None
    }
}

/// When an exact-output quote is refused, and why. Asking for as much as the
/// whole output reserve, or more, is refused rather than priced.
pub open spec fn output_price_error(dy: int, x: int, y: int, fee_ppm: int) -> Option<PoolError> {
    if dy < 0 {
        Some(PoolError::InvalidArgument)
    } else if x < 0 || y <= 0 || dy >= y {
        Some(PoolError::InsufficientLiquidity)
    } else if output_price(dy, x, y, fee_ppm) > i32::MAX {
        Some(PoolError::Overflow)
    } else {
        None
    }
}

/// The exact-input quote never exceeds the output reserve, and stays
/// strictly below it when the reserve is not empty.
pub proof fn lemma_input_price_bounds(dx: int, x: int, y: int, fee_ppm: int)
    requires
        dx >= 0,
        x > 0,
        y >= 0,
        0 <= fee_ppm < FEE_SCALE,
    ensures
        0 <= input_price(dx, x, y, fee_ppm) <= y,
        y > 0 ==> input_price(dx, x, y, fee_ppm) < y,
{
    let r = FEE_SCALE - fee_ppm;
    let num = y * dx * r;
    let den = x * FEE_SCALE + dx * r;
    assert(den > 0 && den > dx * r) by (nonlinear_arith)
        requires
            r > 0,
            dx >= 0,
            x > 0,
            den == x * FEE_SCALE + dx * r,
    ;
    assert(num >= 0) by (nonlinear_arith)
        requires
            y >= 0,
            dx >= 0,
            r > 0,
            num == y * dx * r,
    ;
    assert(num <= y * den && (y > 0 ==> num < y * den)) by (nonlinear_arith)
        requires
            y >= 0,
            den > dx * r,
            num == y * dx * r,
    ;
    assert(num / den <= y && (y > 0 ==> num / den < y)) by (nonlinear_arith)
        requires
            num >= 0,
            den > 0,
            num <= y * den,
            y > 0 ==> num < y * den,
    ;
    assert(num / den >= 0) by (nonlinear_arith)
        requires
            num >= 0,
            den > 0,
    ;
}

} // verus!
