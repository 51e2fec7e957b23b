//! The pool engine: reserves, liquidity shares and the swap operations.

use vstd::prelude::*;
use crate::pricing::{
    FEE_SCALE, PoolError, input_price, output_price, input_price_error, output_price_error,
    lemma_input_price_bounds,
};

verus! {

/// A two-asset constant-product pool over assets E and T.
#[derive(Clone, Copy, Debug)]
pub struct LiquidityPool {
    /// Reserve of asset E.
    pub e: i32,
    /// Reserve of asset T.
    pub t: i32,
    /// Outstanding liquidity shares.
    pub l: i32,
    /// Snapshot of `e * t`, recomputed after every change of the reserves.
    pub k: i64,
    /// Fee rate, in parts per million of the input.
    pub fee_ppm: u32,
}

/// `v * num / den`, truncated: a quantity scaled by the ratio `num / den`.
pub open spec fn scaled(v: int, num: int, den: int) -> int {
    (v * num) / den
}

/// The refusal, if any, of a swap whose quote gave `quote_err` and whose
/// growing reserve would become `grown`.
pub open spec fn swap_error(quote_err: Option<PoolError>, grown: int) -> Option<PoolError> {
    match quote_err {
        Some(err) => Some(err),
        None => if grown > i32::MAX {
            Some(PoolError::Overflow)
        } else {
            None
        },
    }
}

/// The product of two non-negative `i32`s, which always fits in an `i64`.
fn product(a: i32, b: i32) -> (r: i64)
    requires
        a >= 0,
        b >= 0,
    ensures
        r == a * b,
{
    assert(0 <= a * b <= 0x8000_0000 * 0x8000_0000) by (nonlinear_arith)
        requires
            0 <= a <= i32::MAX,
            0 <= b <= i32::MAX,
    ;
    a as i64 * b as i64
}

impl LiquidityPool {
    /// Reserves and shares are non-negative, the fee rate lies in `[0, 1)`
    /// and `k` is the product of the reserves.
    pub open spec fn wf(&self) -> bool {
        &&& self.e >= 0
        &&& self.t >= 0
        &&& self.l >= 0
        &&& self.fee_ppm < FEE_SCALE
        &&& self.k == self.e * self.t
    }

    /// A pool over the given reserves and shares, charging `fee_ppm` parts
    /// per million of each swap's input.
    pub fn new(e: i32, t: i32, l: i32, fee_ppm: u32) -> (r: LiquidityPool)
        requires
            e >= 0,
            t >= 0,
            l >= 0,
            fee_ppm < FEE_SCALE,
        ensures
            r.wf(),
            r.e == e,
            r.t == t,
            r.l == l,
            r.fee_ppm == fee_ppm,
    {
        LiquidityPool { e, t, l, k: product(e, t), fee_ppm }
    }

    /// Sets both reserves and recomputes `k`.
    fn set_reserves(&mut self, e: i32, t: i32)
        requires
            e >= 0,
            t >= 0,
        ensures
            final(self).e == e,
            final(self).t == t,
            final(self).k == e * t,
            final(self).l == old(self).l,
            final(self).fee_ppm == old(self).fee_ppm,
    {
        self.e = e;
        self.t = t;
        self.k = product(e, t);
    }

    /// The refusal, if any, of `add_liquidity(delta_e)`.
    pub open spec fn add_liquidity_error(&self, delta_e: int) -> Option<PoolError> {
        if delta_e <= 0 {
            Some(PoolError::InvalidArgument)
        } else if self.e <= 0 {
            Some(PoolError::InsufficientLiquidity)
        } else if self.e + delta_e > i32::MAX
            || scaled(self.t as int, self.e + delta_e, self.e as int) + 1 > i32::MAX
            || scaled(self.l as int, self.e + delta_e, self.e as int) > i32::MAX {
            Some(PoolError::Overflow)
        } else {
            None
        }
    }

    /// The refusal, if any, of `remove_liquidity(delta_l)`.
    pub open spec fn remove_liquidity_error(&self, delta_l: int) -> Option<PoolError> {
        if delta_l <= 0 {
            Some(PoolError::InvalidArgument)
        } else if delta_l > self.l {
            Some(PoolError::InsufficientLiquidity)
        } else {
            None
        }
    }

    /// What `eth_to_token(delta_x)` returns.
    pub open spec fn eth_to_token_result(&self, delta_x: int) -> Result<i32, PoolError> {
        match swap_error(input_price_error(delta_x, self.e as int, self.t as int),
            self.e + delta_x) {
            Some(err) => Err(err),
            None => Ok(input_price(delta_x, self.e as int, self.t as int, self.fee_ppm as int) as i32),
        }
    }

    /// What `eth_to_token_exact(delta_y)` returns.
    pub open spec fn eth_to_token_exact_result(&self, delta_y: int) -> Result<i32, PoolError> {
        match swap_error(
            output_price_error(delta_y, self.e as int, self.t as int, self.fee_ppm as int),
            self.e + output_price(delta_y, self.e as int, self.t as int, self.fee_ppm as int),
        ) {
            Some(err) => Err(err),
            None => Ok(output_price(delta_y, self.e as int, self.t as int, self.fee_ppm as int) as i32),
        }
    }

    /// What `token_to_eth(delta_y)` returns.
    pub open spec fn token_to_eth_result(&self, delta_y: int) -> Result<i32, PoolError> {
        match swap_error(input_price_error(delta_y, self.t as int, self.e as int),
            self.t + delta_y) {
            Some(err) => Err(err),
            None => Ok(input_price(delta_y, self.t as int, self.e as int, self.fee_ppm as int) as i32),
        }
    }

    /// What `token_to_eth_exact(delta_x)` returns.
    pub open spec fn token_to_eth_exact_result(&self, delta_x: int) -> Result<i32, PoolError> {
        match swap_error(
            output_price_error(delta_x, self.t as int, self.e as int, self.fee_ppm as int),
            self.t + output_price(delta_x, self.t as int, self.e as int, self.fee_ppm as int),
        ) {
            Some(err) => Err(err),
            None => Ok(output_price(delta_x, self.t as int, self.e as int, self.fee_ppm as int) as i32),
        }
    }

    /// Adds `delta_e` units of E and the matching share of T. With
    /// `a = delta_e / e`, reserve T becomes `floor(t * (1 + a)) + 1` (the
    /// extra unit keeps T from falling short after truncation) and the share
    /// supply `floor(l * (1 + a))`. On failure nothing changes.
    pub fn add_liquidity(&mut self, delta_e: i32) -> (r: Result<(), PoolError>)
        requires
            old(self).wf(),
        ensures
            final(self).wf(),
            r == match old(self).add_liquidity_error(delta_e as int) {
                Some(err) => Err(err),
                None => Ok(()),
            },
            r is Ok ==> {
                &&& final(self).e == old(self).e + delta_e
                &&& final(self).t == scaled(old(self).t as int, old(self).e + delta_e, old(self).e as int) + 1
                &&& final(self).l == scaled(old(self).l as int, old(self).e + delta_e, old(self).e as int)
                &&& final(self).fee_ppm == old(self).fee_ppm
            },
            r is Err ==> *final(self) == *old(self),
    {
        if delta_e <= 0 {
            return Err(PoolError::InvalidArgument);
        }
        if self.e <= 0 {
            return Err(PoolError::InsufficientLiquidity);
        }
        let e: i64 = self.e as i64;
        let grown: i64 = e + delta_e as i64;
        assert(0 <= self.t * grown <= 0x7FFF_FFFF * 0xFFFF_FFFE
            && 0 <= self.l * grown <= 0x7FFF_FFFF * 0xFFFF_FFFE
            && (self.t * grown) / (e as int) <= self.t * grown) by (nonlinear_arith)
            requires
                0 <= self.t <= i32::MAX,
                0 <= self.l <= i32::MAX,
                0 < grown <= 0xFFFF_FFFE,
                e > 0,
        ;
        let new_t: i64 = (self.t as i64 * grown) / e + 1;
        let new_l: i64 = (self.l as i64 * grown) / e;
        assert(new_t >= 0 && new_l >= 0) by (nonlinear_arith)
            requires
                self.t >= 0,
                self.l >= 0,
                grown > 0,
                e > 0,
                new_t == (self.t * grown) / (e as int) + 1,
                new_l == (self.l * grown) / (e as int),
        ;
        if grown > i32::MAX as i64 || new_t > i32::MAX as i64 || new_l > i32::MAX as i64 {
            return Err(PoolError::Overflow);
        }
        self.set_reserves(grown as i32, new_t as i32);
        self.l = new_l as i32;
        Ok(())
    }

    /// Burns `delta_l` shares and takes the matching fraction of both
    /// reserves out. With `a = delta_l / l`, each reserve becomes
    /// `floor(reserve * (1 - a))`, so truncation leaves any fraction in the
    /// pool. Burning more shares than exist fails; on failure nothing
    /// changes.
    pub fn remove_liquidity(&mut self, delta_l: i32) -> (r: Result<(), PoolError>)
        requires
            old(self).wf(),
        ensures
            final(self).wf(),
            r == match old(self).remove_liquidity_error(delta_l as int) {
                Some(err) => Err(err),
                None => Ok(()),
            },
            r is Ok ==> {
                &&& final(self).l == old(self).l - delta_l
                &&& final(self).t == scaled(old(self).t as int, old(self).l - delta_l, old(self).l as int)
                &&& final(self).e == scaled(old(self).e as int, old(self).l - delta_l, old(self).l as int)
                &&& final(self).fee_ppm == old(self).fee_ppm
            },
            r is Err ==> *final(self) == *old(self),
    {
        if delta_l <= 0 {
            return Err(PoolError::InvalidArgument);
        }
        if delta_l > self.l {
            return Err(PoolError::InsufficientLiquidity);
        }
        let l: i64 = self.l as i64;
        let kept: i64 = l - delta_l as i64;
        assert(0 <= self.t * kept <= self.t * l && 0 <= self.e * kept <= self.e * l
            && self.t * l <= 0x8000_0000 * 0x8000_0000 && self.e * l <= 0x8000_0000 * 0x8000_0000)
            by (nonlinear_arith)
            requires
                0 <= self.t <= i32::MAX,
                0 <= self.e <= i32::MAX,
                0 <= kept <= l,
                0 < l <= i32::MAX,
        ;
        let new_t: i64 = (self.t as i64 * kept) / l;
        let new_e: i64 = (self.e as i64 * kept) / l;
        assert(0 <= new_t <= self.t && 0 <= new_e <= self.e) by (nonlinear_arith)
            requires
                0 <= self.t * kept <= self.t * l,
                0 <= self.e * kept <= self.e * l,
                l > 0,
                new_t == (self.t * kept) / (l as int),
                new_e == (self.e * kept) / (l as int),
        ;
        self.set_reserves(new_e as i32, new_t as i32);
        self.l = kept as i32;
        Ok(())
    }

    /// Quotes an exact-input swap: the units of reserve `y` paid out for
    /// `delta_x` units paid into reserve `x`. An empty output reserve pays out
    /// nothing; an empty or negative input reserve cannot be priced.
    pub fn get_input_price(delta_x: i32, x: i32, y: i32, fee_ppm: u32) -> (r: Result<i32, PoolError>)
        requires
            fee_ppm < FEE_SCALE,
        ensures
            r == match input_price_error(delta_x as int, x as int, y as int) {
                Some(err) => Err(err),
                None => Ok(input_price(delta_x as int, x as int, y as int, fee_ppm as int) as i32),
            },
            r is Ok ==> 0 <= r->Ok_0 <= y && (y > 0 ==> r->Ok_0 < y),
            r is Ok ==> r->Ok_0 == input_price(delta_x as int, x as int, y as int, fee_ppm as int),
    {
        if delta_x < 0 {
            return Err(PoolError::InvalidArgument);
        }
        if x <= 0 || y < 0 {
            return Err(PoolError::InsufficientLiquidity);
        }
        proof {
            lemma_input_price_bounds(delta_x as int, x as int, y as int, fee_ppm as int);
        }
        let rate: i128 = (FEE_SCALE - fee_ppm) as i128;
        assert(0 <= y * delta_x < 0x4000_0000_0000_0000) by (nonlinear_arith)
            requires
                0 <= y <= i32::MAX,
                0 <= delta_x <= i32::MAX,
        ;
        let yd: i128 = y as i128 * delta_x as i128;
        assert(0 <= yd * rate <= 0x4000_0000_0000_0000 * 1_000_000) by (nonlinear_arith)
            requires
                0 <= yd < 0x4000_0000_0000_0000,
                0 < rate <= 1_000_000,
        ;
        let num: i128 = yd * rate;
        assert(0 <= delta_x * rate <= 0x8000_0000 * 1_000_000 && 0 < x * 1_000_000 <= 0x8000_0000
            * 1_000_000) by (nonlinear_arith)
            requires
                0 <= delta_x <= i32::MAX,
                0 < x <= i32::MAX,
                0 < rate <= 1_000_000,
        ;
        let xs: i128 = x as i128 * FEE_SCALE as i128;
        let dr: i128 = delta_x as i128 * rate;
        let q: i128 = num / (xs + dr);
        Ok(q as i32)
    }

    /// Quotes an exact-output swap: the units to pay into reserve `x` to take
    /// `delta_y` units out of reserve `y`. An empty input reserve asks for
    /// nothing. Asking for the whole of `y` or more fails with
    /// `InsufficientLiquidity`; a price beyond `i32` fails
    /// with `Overflow`.
    pub fn get_output_price(delta_y: i32, x: i32, y: i32, fee_ppm: u32) -> (r: Result<i32, PoolError>)
        requires
            fee_ppm < FEE_SCALE,
        ensures
            r == match output_price_error(delta_y as int, x as int, y as int, fee_ppm as int) {
                Some(err) => Err(err),
                None => Ok(output_price(delta_y as int, x as int, y as int, fee_ppm as int) as i32),
            },
            r is Ok ==> r->Ok_0 >= 0,
            r is Ok ==> r->Ok_0 == output_price(delta_y as int, x as int, y as int, fee_ppm as int),
    {
        if delta_y < 0 {
            return Err(PoolError::InvalidArgument);
        }
        if x < 0 || y <= 0 || delta_y >= y {
            return Err(PoolError::InsufficientLiquidity);
        }
        let rate: i128 = (FEE_SCALE - fee_ppm) as i128;
        assert(0 <= x * delta_y < 0x4000_0000_0000_0000) by (nonlinear_arith)
            requires
                0 <= x <= i32::MAX,
                0 <= delta_y <= i32::MAX,
        ;
        let xd: i128 = x as i128 * delta_y as i128;
        let num: i128 = xd * FEE_SCALE as i128;
        let rest: i128 = (y - delta_y) as i128;
        assert(0 < rest * rate <= 0x8000_0000 * 1_000_000) by (nonlinear_arith)
            requires
                0 < rest <= i32::MAX,
                0 < rate <= 1_000_000,
        ;
        let den: i128 = rest * rate;
        let q: i128 = num / den;
        assert(q >= 0) by (nonlinear_arith)
            requires
                num >= 0,
                den > 0,
                q == num / den,
        ;
        if q > i32::MAX as i128 {
            return Err(PoolError::Overflow);
        }
        Ok(q as i32)
    }

    /// Swaps exactly `delta_x` units of E in for T; returns the T paid out.
    /// On failure nothing changes.
    pub fn eth_to_token(&mut self, delta_x: i32) -> (r: Result<i32, PoolError>)
        requires
            old(self).wf(),
        ensures
            final(self).wf(),
            r == old(self).eth_to_token_result(delta_x as int),
            r is Ok ==> {
                &&& final(self).e == old(self).e + delta_x
                &&& final(self).t == old(self).t - r->Ok_0
                &&& final(self).l == old(self).l
                &&& final(self).fee_ppm == old(self).fee_ppm
            },
            r is Err ==> *final(self) == *old(self),
    {
        let delta_y = LiquidityPool::get_input_price(delta_x, self.e, self.t, self.fee_ppm)?;
        if self.e > i32::MAX - delta_x {
            return Err(PoolError::Overflow);
        }
        self.set_reserves(self.e + delta_x, self.t - delta_y);
        Ok(delta_y)
    }

    /// Swaps E in for exactly `delta_y` units of T out; returns the E paid
    /// in. Asking for all of reserve T or more fails with
    /// `InsufficientLiquidity`. On failure nothing changes.
    pub fn eth_to_token_exact(&mut self, delta_y: i32) -> (r: Result<i32, PoolError>)
        requires
            old(self).wf(),
        ensures
            final(self).wf(),
            r == old(self).eth_to_token_exact_result(delta_y as int),
            r is Ok ==> {
                &&& final(self).e == old(self).e + r->Ok_0
                &&& final(self).t == old(self).t - delta_y
                &&& final(self).l == old(self).l
                &&& final(self).fee_ppm == old(self).fee_ppm
            },
            r is Err ==> *final(self) == *old(self),
    {
        let delta_x = LiquidityPool::get_output_price(delta_y, self.e, self.t, self.fee_ppm)?;
        if self.e > i32::MAX - delta_x {
            return Err(PoolError::Overflow);
        }
        self.set_reserves(self.e + delta_x, self.t - delta_y);
        Ok(delta_x)
    }

    /// Swaps exactly `delta_y` units of T in for E; returns the E paid out.
    /// On failure nothing changes.
    pub fn token_to_eth(&mut self, delta_y: i32) -> (r: Result<i32, PoolError>)
        requires
            old(self).wf(),
        ensures
            final(self).wf(),
            r == old(self).token_to_eth_result(delta_y as int),
            r is Ok ==> {
                &&& final(self).e == old(self).e - r->Ok_0
                &&& final(self).t == old(self).t + delta_y
                &&& final(self).l == old(self).l
                &&& final(self).fee_ppm == old(self).fee_ppm
            },
            r is Err ==> *final(self) == *old(self),
    {
        let delta_x = LiquidityPool::get_input_price(delta_y, self.t, self.e, self.fee_ppm)?;
        if self.t > i32::MAX - delta_y {
            return Err(PoolError::Overflow);
        }
        self.set_reserves(self.e - delta_x, self.t + delta_y);
        Ok(delta_x)
    }

    /// Swaps T in for exactly `delta_x` units of E out; returns the T paid
    /// in. Asking for all of reserve E or more fails with
    /// `InsufficientLiquidity`. On failure nothing changes.
    pub fn token_to_eth_exact(&mut self, delta_x: i32) -> (r: Result<i32, PoolError>)
        requires
            old(self).wf(),
        ensures
            final(self).wf(),
            r == old(self).token_to_eth_exact_result(delta_x as int),
            r is Ok ==> {
                &&& final(self).e == old(self).e - delta_x
                &&& final(self).t == old(self).t + r->Ok_0
                &&& final(self).l == old(self).l
                &&& final(self).fee_ppm == old(self).fee_ppm
            },
            r is Err ==> *final(self) == *old(self),
    {
        let delta_y = LiquidityPool::get_output_price(delta_x, self.t, self.e, self.fee_ppm)?;
        if self.t > i32::MAX - delta_y {
            return Err(PoolError::Overflow);
        }
        self.set_reserves(self.e - delta_x, self.t + delta_y);
        Ok(delta_y)
    }
}

} // verus!
