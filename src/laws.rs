//! Properties of the pricing and liquidity formulas, proved over the spec
//! functions that the pool's operations are specified with.

use vstd::prelude::*;
use crate::pricing::{FEE_SCALE, input_price, output_price, lemma_input_price_bounds};
use crate::pool::{LiquidityPool, scaled};

verus! {

/// An exact-input quote obeys the constant-product rule: with the fee taken
/// on the input leg, `dy * (x + dx) <= y * dx`, so that
/// `(x + dx) * (y - dy) >= x * y`.
proof fn lemma_input_price_within_product(dx: int, x: int, y: int, fee_ppm: int)
    requires
        dx >= 0,
        x > 0,
        y >= 0,
        0 <= fee_ppm < FEE_SCALE,
    ensures
        input_price(dx, x, y, fee_ppm) * (x + dx) <= y * dx,
        input_price(dx, x, y, fee_ppm) * (FEE_SCALE * dx + (FEE_SCALE - fee_ppm) * x) * (FEE_SCALE
            - fee_ppm) <= y * dx * (FEE_SCALE - fee_ppm) * FEE_SCALE,
{
    let s = FEE_SCALE as int;
    let r = s - fee_ppm;
    let num = y * dx * r;
    let den = x * s + dx * r;
    let dy = input_price(dx, x, y, fee_ppm);
    assert(den > 0) by (nonlinear_arith)
        requires
            r > 0,
            dx >= 0,
            x > 0,
            s > 0,
            den == x * s + dx * r,
    ;
    assert(dy * den <= num) by (nonlinear_arith)
        requires
            den > 0,
            dy == num / den,
    ;
    lemma_input_price_bounds(dx, x, y, fee_ppm);
    assert(dy * (x + dx) * r <= dy * den) by (nonlinear_arith)
        requires
            dy >= 0,
            0 < r <= s,
            x > 0,
            dx >= 0,
            den == x * s + dx * r,
    ;
    assert(dy * (x + dx) <= y * dx) by (nonlinear_arith)
        requires
            dy * (x + dx) * r <= num,
            num == y * dx * r,
            r > 0,
    ;
    assert(dy * (s * dx + r * x) * r <= dy * den * s) by (nonlinear_arith)
        requires
            dy >= 0,
            0 < r <= s,
            x > 0,
            dx >= 0,
            den == x * s + dx * r,
    ;
    assert(dy * (s * dx + r * x) * r <= y * dx * r * s) by (nonlinear_arith)
        requires
            dy * (s * dx + r * x) * r <= dy * den * s,
            dy * den <= num,
            num == y * dx * r,
            s > 0,
    ;
}

/// An exact-input swap never lowers the product of the reserves, whatever
/// the fee: after paying `dx` into `x` and taking the quoted amount out of
/// `y`, the product is at least `x * y`. This covers both `eth_to_token` and
/// `token_to_eth`.
pub proof fn lemma_exact_input_swap_keeps_product(dx: int, x: int, y: int, fee_ppm: int)
    requires
        dx >= 0,
        x > 0,
        y >= 0,
        0 <= fee_ppm < FEE_SCALE,
    ensures
        (x + dx) * (y - input_price(dx, x, y, fee_ppm)) >= x * y,
{
    let dy = input_price(dx, x, y, fee_ppm);
    lemma_input_price_within_product(dx, x, y, fee_ppm);
    assert((x + dx) * (y - dy) >= x * y) by (nonlinear_arith)
        requires
            dy * (x + dx) <= y * dx,
    ;
}

/// Swapping `dx` of one asset in and then at once swapping the amount
/// received back never returns more than `dx`; with a positive fee and a
/// positive `dx` it returns strictly less.
pub proof fn lemma_round_trip_swap_loses_value(dx: int, x: int, y: int, fee_ppm: int)
    requires
        dx >= 0,
        x > 0,
        y > 0,
        0 <= fee_ppm < FEE_SCALE,
    ensures
        0 < y - input_price(dx, x, y, fee_ppm),
        input_price(input_price(dx, x, y, fee_ppm), y - input_price(dx, x, y, fee_ppm), x + dx, fee_ppm)
            <= dx,
        fee_ppm > 0 && dx > 0 ==> input_price(
            input_price(dx, x, y, fee_ppm),
            y - input_price(dx, x, y, fee_ppm),
            x + dx,
            fee_ppm,
        ) < dx,
{
    let s = FEE_SCALE as int;
    let r = s - fee_ppm;
    let dy = input_price(dx, x, y, fee_ppm);
    lemma_input_price_bounds(dx, x, y, fee_ppm);
    lemma_input_price_within_product(dx, x, y, fee_ppm);
    let den = x * s + dx * r;
    let n2 = (x + dx) * dy * r;
    let d2 = (y - dy) * s + dy * r;
    let back = input_price(dy, y - dy, x + dx, fee_ppm);
    assert(back == n2 / d2);
    assert(dy * (s * dx + r * x) <= y * dx * s) by (nonlinear_arith)
        requires
            dy * (s * dx + r * x) * r <= y * dx * r * s,
            r > 0,
    ;
    assert(d2 > 0) by (nonlinear_arith)
        requires
            y - dy > 0,
            dy >= 0,
            s > 0,
            r > 0,
            d2 == (y - dy) * s + dy * r,
    ;
    assert(dx * d2 == dx * y * s - dx * dy * s + dx * dy * r) by (nonlinear_arith)
        requires
            d2 == (y - dy) * s + dy * r,
    ;
    assert(n2 == x * dy * r + dx * dy * r) by (nonlinear_arith)
        requires
            n2 == (x + dx) * dy * r,
    ;
    assert(dy * (s * dx + r * x) == dx * dy * s + x * dy * r) by (nonlinear_arith);
    assert(y * dx * s == dx * y * s) by (nonlinear_arith);
    assert(dx * d2 - n2 == y * dx * s - dy * (s * dx + r * x));
    assert(n2 >= 0) by (nonlinear_arith)
        requires
            x + dx > 0,
            dy >= 0,
            r > 0,
            n2 == (x + dx) * dy * r,
    ;
    assert(back <= dx) by (nonlinear_arith)
        requires
            n2 <= dx * d2,
            d2 > 0,
            n2 >= 0,
            back == n2 / d2,
    ;
    if fee_ppm > 0 && dx > 0 {
        if dy > 0 {
            assert(dy * (s * dx + r * x) * r < dy * den * s) by (nonlinear_arith)
                requires
                    dy > 0,
                    0 < r < s,
                    x > 0,
                    dx >= 0,
                    den == x * s + dx * r,
            ;
            assert(dy * den <= y * dx * r) by (nonlinear_arith)
                requires
                    den > 0,
                    dy == (y * dx * r) / den,
            ;
            assert(dy * (s * dx + r * x) < y * dx * s) by (nonlinear_arith)
                requires
                    dy * (s * dx + r * x) * r < dy * den * s,
                    dy * den <= y * dx * r,
                    r > 0,
                    s > 0,
            ;
        } else {
            assert(y * dx * s > 0) by (nonlinear_arith)
                requires
                    y > 0,
                    dx > 0,
                    s > 0,
            ;
            assert(dy * (s * dx + r * x) == 0) by (nonlinear_arith)
                requires
                    dy == 0,
            ;
        }
        assert(n2 < dx * d2);
        assert(back < dx) by (nonlinear_arith)
            requires
                n2 < dx * d2,
                d2 > 0,
                n2 >= 0,
                back == n2 / d2,
        ;
    }
}

/// An exact-output swap can lower the product of the reserves only through
/// the truncation of its price, and by less than the output reserve left:
/// `(x + dx) * (y - dy) > x * y - (y - dy)`.
pub proof fn lemma_exact_output_swap_product_bound(dy: int, x: int, y: int, fee_ppm: int)
    requires
        0 <= dy < y,
        x >= 0,
        0 <= fee_ppm < FEE_SCALE,
    ensures
        output_price(dy, x, y, fee_ppm) >= 0,
        (x + output_price(dy, x, y, fee_ppm)) * (y - dy) > x * y - (y - dy),
{
    let s = FEE_SCALE as int;
    let r = s - fee_ppm;
    let n = x * dy * s;
    let d = (y - dy) * r;
    let q = output_price(dy, x, y, fee_ppm);
    assert(q == n / d);
    assert(d > 0 && n >= 0) by (nonlinear_arith)
        requires
            y - dy > 0,
            r > 0,
            x >= 0,
            dy >= 0,
            s > 0,
            d == (y - dy) * r,
            n == x * dy * s,
    ;
    assert(q >= 0 && (q + 1) * d > n) by (nonlinear_arith)
        requires
            d > 0,
            n >= 0,
            q == n / d,
    ;
    assert(x * dy * s >= x * dy * r) by (nonlinear_arith)
        requires
            x >= 0,
            dy >= 0,
            s >= r,
    ;
    assert((q + 1) * (y - dy) > x * dy) by (nonlinear_arith)
        requires
            (q + 1) * ((y - dy) * r) > x * dy * r,
            r > 0,
    ;
    assert((x + q) * (y - dy) > x * y - (y - dy)) by (nonlinear_arith)
        requires
            (q + 1) * (y - dy) > x * dy,
    ;
}

/// Adding `delta_e` of E and then burning exactly the shares it issued
/// gives the share supply back and leaves each reserve at least where it
/// was: truncation favours the pool, never the withdrawer. When the deposit
/// issued no share, there is nothing to burn.
pub proof fn lemma_add_then_remove_favors_pool(e: int, t: int, l: int, delta_e: int)
    requires
        e > 0,
        t >= 0,
        l >= 0,
        delta_e > 0,
    ensures
        ({
            let e1 = e + delta_e;
            let t1 = scaled(t, e1, e) + 1;
            let l1 = scaled(l, e1, e);
            let issued = l1 - l;
            &&& 0 <= issued <= l1
            &&& issued > 0 ==> {
                &&& l1 - issued == l
                &&& scaled(e1, l1 - issued, l1) >= e
                &&& scaled(t1, l1 - issued, l1) >= t
            }
        }),
{
    let e1 = e + delta_e;
    let t1 = scaled(t, e1, e) + 1;
    let l1 = scaled(l, e1, e);
    assert(l1 * e <= l * e1 && l1 >= l) by (nonlinear_arith)
        requires
            e > 0,
            e1 > e,
            l >= 0,
            l1 == (l * e1) / e,
    ;
    assert(t1 * e > t * e1) by (nonlinear_arith)
        requires
            e > 0,
            t1 == (t * e1) / e + 1,
    ;
    if l1 - l > 0 {
        assert((e1 * l) / l1 >= e) by (nonlinear_arith)
            requires
                l1 > 0,
                l1 * e <= l * e1,
        ;
        assert(t1 * l * e >= t * l1 * e) by (nonlinear_arith)
            requires
                t1 * e > t * e1,
                l1 * e <= l * e1,
                l >= 0,
                t >= 0,
        ;
        assert(t1 * l >= t * l1) by (nonlinear_arith)
            requires
                t1 * l * e >= t * l1 * e,
                e > 0,
        ;
        assert((t1 * l) / l1 >= t) by (nonlinear_arith)
            requires
                l1 > 0,
                t1 * l >= t * l1,
        ;
    }
}

/// What the swaps of a pool do to `k`, the product of its reserves: the two
/// exact-input swaps never lower it, whatever the fee; the two exact-output
/// swaps lower it, through truncation alone, by less than the output reserve
/// left.
pub proof fn lemma_pool_swaps_keep_product(pool: LiquidityPool, amount: int)
    requires
        pool.wf(),
    ensures
        pool.eth_to_token_result(amount) is Ok ==> (pool.e + amount) * (pool.t
            - pool.eth_to_token_result(amount)->Ok_0) >= pool.e * pool.t,
        pool.token_to_eth_result(amount) is Ok ==> (pool.e - pool.token_to_eth_result(amount)->Ok_0)
            * (pool.t + amount) >= pool.e * pool.t,
        pool.eth_to_token_exact_result(amount) is Ok ==> (pool.e
            + pool.eth_to_token_exact_result(amount)->Ok_0) * (pool.t - amount) > pool.e * pool.t - (
        pool.t - amount),
        pool.token_to_eth_exact_result(amount) is Ok ==> (pool.e - amount) * (pool.t
            + pool.token_to_eth_exact_result(amount)->Ok_0) > pool.e * pool.t - (pool.e - amount),
{
    let (e, t, fee) = (pool.e as int, pool.t as int, pool.fee_ppm as int);
    if pool.eth_to_token_result(amount) is Ok {
        lemma_input_price_bounds(amount, e, t, fee);
        lemma_exact_input_swap_keeps_product(amount, e, t, fee);
    }
    if pool.token_to_eth_result(amount) is Ok {
        lemma_input_price_bounds(amount, t, e, fee);
        lemma_exact_input_swap_keeps_product(amount, t, e, fee);
        assert((t + amount) * (e - input_price(amount, t, e, fee)) == (e - input_price(amount, t, e, fee)) * (t + amount)) by (nonlinear_arith);
        assert(t * e == e * t) by (nonlinear_arith);
    }
    if pool.eth_to_token_exact_result(amount) is Ok {
        lemma_exact_output_swap_product_bound(amount, e, t, fee);
    }
    if pool.token_to_eth_exact_result(amount) is Ok {
        lemma_exact_output_swap_product_bound(amount, t, e, fee);
        let q = output_price(amount, t, e, fee);
        assert((t + q) * (e - amount) == (e - amount) * (t + q)) by (nonlinear_arith);
        assert(t * e == e * t) by (nonlinear_arith);
    }
}

/// Truncated division keeps an order of fractions: `a / b <= c / d` when
/// `a * d <= c * b`.
proof fn lemma_floor_div_le(a: int, b: int, c: int, d: int)
    requires
        a >= 0,
        b > 0,
        c >= 0,
        d > 0,
        a * d <= c * b,
    ensures
        a / b <= c / d,
{
    let q = a / b;
    assert(q * b <= a && q >= 0) by (nonlinear_arith)
        requires
            b > 0,
            a >= 0,
            q == a / b,
    ;
    assert(q * d * b <= c * b) by (nonlinear_arith)
        requires
            q * b <= a,
            a * d <= c * b,
            d > 0,
    ;
    assert(q * d <= c) by (nonlinear_arith)
        requires
            q * d * b <= c * b,
            b > 0,
    ;
    assert(q <= c / d) by (nonlinear_arith)
        requires
            q * d <= c,
            d > 0,
            c >= 0,
    ;
}

/// `(a * d1) * (c + d2 * e) <= (a * d2) * (c + d1 * e)` for `d1 <= d2`: the
/// cross-multiplied form of `a * d / (c + d * e)` growing with `d`.
proof fn lemma_cross_le(a: int, c: int, e: int, d1: int, d2: int)
    requires
        a >= 0,
        c >= 0,
        0 <= d1 <= d2,
    ensures
        (a * d1) * (c + d2 * e) <= (a * d2) * (c + d1 * e),
{
    assert((a * d1) * (c + d2 * e) == a * d1 * c + a * d1 * (d2 * e)) by (nonlinear_arith);
    assert((a * d2) * (c + d1 * e) == a * d2 * c + a * d2 * (d1 * e)) by (nonlinear_arith);
    assert(a * d1 * (d2 * e) == a * d2 * (d1 * e)) by (nonlinear_arith);
    assert(a * d1 * c <= a * d2 * c) by (nonlinear_arith)
        requires
            a >= 0,
            c >= 0,
            d1 <= d2,
    ;
}

/// `(u * d) * (w * r) == (u * r) * (d * w)`.
proof fn lemma_regroup(u: int, d: int, w: int, r: int)
    ensures
        (u * d) * (w * r) == (u * r) * (d * w),
{
    assert((u * d) * (w * r) == (u * r) * (d * w)) by (nonlinear_arith);
}

/// Paying more in never buys less out: the exact-input quote grows with
/// the input.
pub proof fn lemma_input_price_monotone_in_input(d1: int, d2: int, x: int, y: int, fee_ppm: int)
    requires
        0 <= d1 <= d2,
        x > 0,
        y >= 0,
        0 <= fee_ppm < FEE_SCALE,
    ensures
        input_price(d1, x, y, fee_ppm) <= input_price(d2, x, y, fee_ppm),
{
    let s = FEE_SCALE as int;
    let r = s - fee_ppm;
    let n1 = y * d1 * r;
    let n2 = y * d2 * r;
    let m1 = x * s + d1 * r;
    let m2 = x * s + d2 * r;
    assert(n1 >= 0 && n2 >= 0 && m1 > 0 && m2 > 0) by (nonlinear_arith)
        requires
            y >= 0,
            0 <= d1 <= d2,
            r > 0,
            x > 0,
            s > 0,
            n1 == y * d1 * r,
            n2 == y * d2 * r,
            m1 == x * s + d1 * r,
            m2 == x * s + d2 * r,
    ;
    assert(n1 == (y * r) * d1 && n2 == (y * r) * d2) by (nonlinear_arith)
        requires
            n1 == y * d1 * r,
            n2 == y * d2 * r,
    ;
    assert(y * r >= 0 && x * s >= 0) by (nonlinear_arith)
        requires
            y >= 0,
            r > 0,
            x > 0,
            s > 0,
    ;
    lemma_cross_le(y * r, x * s, r, d1, d2);
    lemma_floor_div_le(n1, m1, n2, m2);
}

/// A higher fee never pays out more: the exact-input quote falls as the fee
/// rises.
pub proof fn lemma_input_price_antitone_in_fee(dx: int, x: int, y: int, f1: int, f2: int)
    requires
        dx >= 0,
        x > 0,
        y >= 0,
        0 <= f1 <= f2 < FEE_SCALE,
    ensures
        input_price(dx, x, y, f2) <= input_price(dx, x, y, f1),
{
    let s = FEE_SCALE as int;
    let r1 = s - f1;
    let r2 = s - f2;
    let n1 = y * dx * r1;
    let n2 = y * dx * r2;
    let m1 = x * s + dx * r1;
    let m2 = x * s + dx * r2;
    assert(n1 >= 0 && n2 >= 0 && m1 > 0 && m2 > 0) by (nonlinear_arith)
        requires
            y >= 0,
            dx >= 0,
            r1 >= r2 > 0,
            x > 0,
            s > 0,
            n1 == y * dx * r1,
            n2 == y * dx * r2,
            m1 == x * s + dx * r1,
            m2 == x * s + dx * r2,
    ;
    assert(m1 == x * s + r1 * dx && m2 == x * s + r2 * dx) by (nonlinear_arith)
        requires
            m1 == x * s + dx * r1,
            m2 == x * s + dx * r2,
    ;
    assert(n1 == (y * dx) * r1 && n2 == (y * dx) * r2);
    assert(y * dx >= 0 && x * s >= 0) by (nonlinear_arith)
        requires
            y >= 0,
            dx >= 0,
            x > 0,
            s > 0,
    ;
    lemma_cross_le(y * dx, x * s, dx, r2, r1);
    lemma_floor_div_le(n2, m2, n1, m1);
}

/// Asking for more out never costs less in: the exact-output quote grows
/// with the output asked for.
pub proof fn lemma_output_price_monotone_in_output(d1: int, d2: int, x: int, y: int, fee_ppm: int)
    requires
        0 <= d1 <= d2 < y,
        x >= 0,
        0 <= fee_ppm < FEE_SCALE,
    ensures
        output_price(d1, x, y, fee_ppm) <= output_price(d2, x, y, fee_ppm),
{
    let s = FEE_SCALE as int;
    let r = s - fee_ppm;
    let n1 = x * d1 * s;
    let n2 = x * d2 * s;
    let m1 = (y - d1) * r;
    let m2 = (y - d2) * r;
    assert(n1 >= 0 && n2 >= 0 && m1 > 0 && m2 > 0) by (nonlinear_arith)
        requires
            x >= 0,
            0 <= d1 <= d2 < y,
            r > 0,
            s > 0,
            n1 == x * d1 * s,
            n2 == x * d2 * s,
            m1 == (y - d1) * r,
            m2 == (y - d2) * r,
    ;
    let a = x * s * r;
    assert(a >= 0) by (nonlinear_arith)
        requires
            x >= 0,
            s > 0,
            r > 0,
            a == x * s * r,
    ;
    assert(n1 == (x * s) * d1 && n2 == (x * s) * d2) by (nonlinear_arith)
        requires
            n1 == x * d1 * s,
            n2 == x * d2 * s,
    ;
    lemma_regroup(x * s, d1, y - d2, r);
    lemma_regroup(x * s, d2, y - d1, r);
    assert(d1 * (y - d2) <= d2 * (y - d1)) by (nonlinear_arith)
        requires
            0 <= d1 <= d2 < y,
    ;
    assert(a * (d1 * (y - d2)) <= a * (d2 * (y - d1))) by (nonlinear_arith)
        requires
            a >= 0,
            d1 * (y - d2) <= d2 * (y - d1),
    ;
    lemma_floor_div_le(n1, m1, n2, m2);
}

/// A deeper input reserve never pays out more for the same input: the
/// exact-input quote falls as the input reserve grows.
pub proof fn lemma_input_price_antitone_in_reserve(dx: int, x1: int, x2: int, y: int, fee_ppm: int)
    requires
        dx >= 0,
        0 < x1 <= x2,
        y >= 0,
        0 <= fee_ppm < FEE_SCALE,
    ensures
        input_price(dx, x2, y, fee_ppm) <= input_price(dx, x1, y, fee_ppm),
{
    let s = FEE_SCALE as int;
    let r = s - fee_ppm;
    let n = y * dx * r;
    let m1 = x1 * s + dx * r;
    let m2 = x2 * s + dx * r;
    assert(n >= 0 && 0 < m1 <= m2) by (nonlinear_arith)
        requires
            y >= 0,
            dx >= 0,
            r > 0,
            s > 0,
            0 < x1 <= x2,
            n == y * dx * r,
            m1 == x1 * s + dx * r,
            m2 == x2 * s + dx * r,
    ;
    assert(n * m1 <= n * m2) by (nonlinear_arith)
        requires
            n >= 0,
            m1 <= m2,
    ;
    lemma_floor_div_le(n, m2, n, m1);
}

/// A higher fee never raises what a round trip returns: swapping `dx` in and
/// the amount received straight back gives no more under fee `f2` than
/// under a lower fee `f1`.
pub proof fn lemma_round_trip_antitone_in_fee(dx: int, x: int, y: int, f1: int, f2: int)
    requires
        dx >= 0,
        x > 0,
        y > 0,
        0 <= f1 <= f2 < FEE_SCALE,
    ensures
        input_price(input_price(dx, x, y, f2), y - input_price(dx, x, y, f2), x + dx, f2)
            <= input_price(input_price(dx, x, y, f1), y - input_price(dx, x, y, f1), x + dx, f1),
{
    let dy1 = input_price(dx, x, y, f1);
    let dy2 = input_price(dx, x, y, f2);
    lemma_input_price_bounds(dx, x, y, f1);
    lemma_input_price_bounds(dx, x, y, f2);
    lemma_input_price_antitone_in_fee(dx, x, y, f1, f2);
    lemma_input_price_antitone_in_fee(dy2, y - dy2, x + dx, f1, f2);
    lemma_input_price_antitone_in_reserve(dy2, y - dy1, y - dy2, x + dx, f1);
    lemma_input_price_monotone_in_input(dy2, dy1, y - dy1, x + dx, f1);
}

/// Swapping `delta_x` of E into a pool for T, and then the T received back
/// into the resulting pool, succeeds and returns at most `delta_x` of E;
/// strictly less when the fee is positive and `delta_x` is.
pub proof fn lemma_pool_round_trip_from_eth(pool: LiquidityPool, mid: LiquidityPool, delta_x: int)
    requires
        pool.wf(),
        pool.e > 0,
        pool.t > 0,
        pool.eth_to_token_result(delta_x) is Ok,
        mid.e == pool.e + delta_x,
        mid.t == pool.t - pool.eth_to_token_result(delta_x)->Ok_0,
        mid.fee_ppm == pool.fee_ppm,
    ensures
        mid.token_to_eth_result(pool.eth_to_token_result(delta_x)->Ok_0 as int) is Ok,
        mid.token_to_eth_result(pool.eth_to_token_result(delta_x)->Ok_0 as int)->Ok_0 <= delta_x,
        pool.fee_ppm > 0 && delta_x > 0 ==> mid.token_to_eth_result(
            pool.eth_to_token_result(delta_x)->Ok_0 as int,
        )->Ok_0 < delta_x,
{
    let (e, t, fee) = (pool.e as int, pool.t as int, pool.fee_ppm as int);
    lemma_input_price_bounds(delta_x, e, t, fee);
    lemma_round_trip_swap_loses_value(delta_x, e, t, fee);
    let dy = input_price(delta_x, e, t, fee);
    lemma_input_price_bounds(dy, t - dy, e + delta_x, fee);
}

/// Swapping `delta_y` of T into a pool for E, and then the E received back
/// into the resulting pool, succeeds and returns at most `delta_y` of T;
/// strictly less when the fee is positive and `delta_y` is.
pub proof fn lemma_pool_round_trip_from_token(pool: LiquidityPool, mid: LiquidityPool, delta_y: int)
    requires
        pool.wf(),
        pool.e > 0,
        pool.t > 0,
        pool.token_to_eth_result(delta_y) is Ok,
        mid.e == pool.e - pool.token_to_eth_result(delta_y)->Ok_0,
        mid.t == pool.t + delta_y,
        mid.fee_ppm == pool.fee_ppm,
    ensures
        mid.eth_to_token_result(pool.token_to_eth_result(delta_y)->Ok_0 as int) is Ok,
        mid.eth_to_token_result(pool.token_to_eth_result(delta_y)->Ok_0 as int)->Ok_0 <= delta_y,
        pool.fee_ppm > 0 && delta_y > 0 ==> mid.eth_to_token_result(
            pool.token_to_eth_result(delta_y)->Ok_0 as int,
        )->Ok_0 < delta_y,
{
    let (e, t, fee) = (pool.e as int, pool.t as int, pool.fee_ppm as int);
    lemma_input_price_bounds(delta_y, t, e, fee);
    lemma_round_trip_swap_loses_value(delta_y, t, e, fee);
    let dx = input_price(delta_y, t, e, fee);
    lemma_input_price_bounds(dx, e - dx, t + delta_y, fee);
}

} // verus!
