//! The account ledger: a participant's two balances and identifier. All
//! pricing is left to the pool; an account only applies the amounts the pool
//! returns.

use vstd::prelude::*;
use crate::pool::LiquidityPool;
use crate::pricing::PoolError;

verus! {

/// The lower-case hexadecimal digit for `n` in `0..16`.
pub open spec fn hex_digit(n: int) -> char {
    seq!['0', '1', '2', '3', '4', '5', '6', '7', '8', '9', 'a', 'b', 'c', 'd', 'e', 'f'][n]
}

/// `s` spells `bytes` in lower-case hexadecimal, two digits per byte, high
/// digit first.
pub open spec fn is_lower_hex_of(s: Seq<char>, bytes: Seq<u8>) -> bool {
    &&& s.len() == 2 * bytes.len()
    &&& forall|i: int|
        0 <= i < bytes.len() ==> {
            &&& #[trigger] s[2 * i] == hex_digit(bytes[i] as int / 16)
            &&& s[2 * i + 1] == hex_digit(bytes[i] as int % 16)
        }
}

/// A value that an `i32` can hold.
pub open spec fn fits_i32(v: int) -> bool {
    i32::MIN <= v <= i32::MAX
}

/// Relies on hex::encode: each byte becomes two lower-case hex digits, high
/// digit first.
#[verifier::external_body]
fn encode_hex(bytes: &[u8]) -> (r: String)
    ensures
        is_lower_hex_of(r@, bytes@),
{
    hex::encode(bytes)
}

/// Relies on rand::random for twenty random bytes; nothing is known of their
/// values.
#[verifier::external_body]
fn random_bytes() -> (r: [u8; 20]) {
    rand::random::<[u8; 20]>()
}

/// A participant's balances of assets E and T, and its identifier.
pub struct Account {
    /// Forty lower-case hex digits drawn at random when the account is made.
    pub address: String,
    pub e_balance: i32,
    pub t_balance: i32,
}

impl Account {
    /// An account with the given balances and a fresh random identifier of
    /// twenty bytes in lower-case hex.
    pub fn new(e_balance: i32, t_balance: i32) -> (r: Account)
        ensures
            r.e_balance == e_balance,
            r.t_balance == t_balance,
            r.address@.len() == 40,
            exists|bytes: Seq<u8>| bytes.len() == 20 && is_lower_hex_of(r.address@, bytes),
    {
        let bytes = random_bytes();
        let address = encode_hex(&bytes);
        Account { address, e_balance, t_balance }
    }

    /// Adds a signed amount to the E balance, which may go negative.
    pub fn update_e_balance(&mut self, delta_e: i32)
        requires
            fits_i32(old(self).e_balance + delta_e),
        ensures
            final(self).e_balance == old(self).e_balance + delta_e,
            final(self).t_balance == old(self).t_balance,
            final(self).address == old(self).address,
    {
        self.e_balance = self.e_balance + delta_e;
    }

    /// Adds a signed amount to the T balance, which may go negative.
    pub fn update_t_balance(&mut self, delta_t: i32)
        requires
            fits_i32(old(self).t_balance + delta_t),
        ensures
            final(self).t_balance == old(self).t_balance + delta_t,
            final(self).e_balance == old(self).e_balance,
            final(self).address == old(self).address,
    {
        self.t_balance = self.t_balance + delta_t;
    }

    /// Pays exactly `delta_e` of E into the pool for T. The pool is asked
    /// first; if the balances could not hold the outcome, the swap is undone
    /// and `Overflow` returned. On failure neither side changes.
    pub fn swap_from_eth(&mut self, pool: &mut LiquidityPool, delta_e: i32) -> (r: Result<(), PoolError>)
        requires
            old(pool).wf(),
        ensures
            final(pool).wf(),
            r == match old(pool).eth_to_token_result(delta_e as int) {
                Err(err) => Err(err),
                Ok(delta_t) => if fits_i32(old(self).e_balance - delta_e) && fits_i32(old(self).t_balance + delta_t) {
                    Ok(())
                } else {
                    Err(PoolError::Overflow)
                },
            },
            r is Ok ==> {
                let delta_t = old(pool).eth_to_token_result(delta_e as int)->Ok_0;
                &&& final(self).e_balance == old(self).e_balance - delta_e
                &&& final(self).t_balance == old(self).t_balance + delta_t
                &&& final(self).address == old(self).address
                &&& final(pool).e == old(pool).e + delta_e
                &&& final(pool).t == old(pool).t - delta_t
                &&& final(pool).l == old(pool).l
                &&& final(pool).fee_ppm == old(pool).fee_ppm
            },
            r is Err ==> *final(self) == *old(self) && *final(pool) == *old(pool),
    {
        let saved = *pool;
        let delta_t = pool.eth_to_token(delta_e)?;
        let new_e: i64 = self.e_balance as i64 - delta_e as i64;
        let new_t: i64 = self.t_balance as i64 + delta_t as i64;
        if !(i32::MIN as i64 <= new_e && new_e <= i32::MAX as i64 && i32::MIN as i64 <= new_t && new_t
            <= i32::MAX as i64) {
            *pool = saved;
            return Err(PoolError::Overflow);
        }
        self.update_e_balance(-delta_e);
        self.update_t_balance(delta_t);
        Ok(())
    }

    /// Takes exactly `delta_t` of T out of the pool, paying the E it asks.
    /// Both balances are debited: the E paid, and `delta_t` of T. If the
    /// balances could not hold the outcome, the swap is undone and
    /// `Overflow` returned. On failure neither side changes.
    pub fn swap_exact(&mut self, pool: &mut LiquidityPool, delta_t: i32) -> (r: Result<(), PoolError>)
        requires
            old(pool).wf(),
        ensures
            final(pool).wf(),
            r == match old(pool).eth_to_token_exact_result(delta_t as int) {
                Err(err) => Err(err),
                Ok(delta_e) => if fits_i32(old(self).e_balance - delta_e) && fits_i32(old(self).t_balance - delta_t) {
                    Ok(())
                } else {
                    Err(PoolError::Overflow)
                },
            },
            r is Ok ==> {
                let delta_e = old(pool).eth_to_token_exact_result(delta_t as int)->Ok_0;
                &&& final(self).e_balance == old(self).e_balance - delta_e
                &&& final(self).t_balance == old(self).t_balance - delta_t
                &&& final(self).address == old(self).address
                &&& final(pool).e == old(pool).e + delta_e
                &&& final(pool).t == old(pool).t - delta_t
                &&& final(pool).l == old(pool).l
                &&& final(pool).fee_ppm == old(pool).fee_ppm
            },
            r is Err ==> *final(self) == *old(self) && *final(pool) == *old(pool),
    {
        let saved = *pool;
        let delta_e = pool.eth_to_token_exact(delta_t)?;
        let new_e: i64 = self.e_balance as i64 - delta_e as i64;
        let new_t: i64 = self.t_balance as i64 - delta_t as i64;
        if !(i32::MIN as i64 <= new_e && new_e <= i32::MAX as i64 && i32::MIN as i64 <= new_t && new_t
            <= i32::MAX as i64) {
            *pool = saved;
            return Err(PoolError::Overflow);
        }
        self.update_e_balance(-delta_e);
        self.update_t_balance(-delta_t);
        Ok(())
    }

    /// Pays exactly `delta_t` of T into the pool for E. If the balances
    /// could not hold the outcome, the swap is undone and `Overflow`
    /// returned. On failure neither side changes.
    pub fn swap_from_token(&mut self, pool: &mut LiquidityPool, delta_t: i32) -> (r: Result<(), PoolError>)
        requires
            old(pool).wf(),
        ensures
            final(pool).wf(),
            r == match old(pool).token_to_eth_result(delta_t as int) {
                Err(err) => Err(err),
                Ok(delta_e) => if fits_i32(old(self).e_balance + delta_e) && fits_i32(old(self).t_balance - delta_t) {
                    Ok(())
                } else {
                    Err(PoolError::Overflow)
                },
            },
            r is Ok ==> {
                let delta_e = old(pool).token_to_eth_result(delta_t as int)->Ok_0;
                &&& final(self).e_balance == old(self).e_balance + delta_e
                &&& final(self).t_balance == old(self).t_balance - delta_t
                &&& final(self).address == old(self).address
                &&& final(pool).e == old(pool).e - delta_e
                &&& final(pool).t == old(pool).t + delta_t
                &&& final(pool).l == old(pool).l
                &&& final(pool).fee_ppm == old(pool).fee_ppm
            },
            r is Err ==> *final(self) == *old(self) && *final(pool) == *old(pool),
    {
        let saved = *pool;
        let delta_e = pool.token_to_eth(delta_t)?;
        let new_e: i64 = self.e_balance as i64 + delta_e as i64;
        let new_t: i64 = self.t_balance as i64 - delta_t as i64;
        if !(i32::MIN as i64 <= new_e && new_e <= i32::MAX as i64 && i32::MIN as i64 <= new_t && new_t
            <= i32::MAX as i64) {
            *pool = saved;
            return Err(PoolError::Overflow);
        }
        self.update_e_balance(delta_e);
        self.update_t_balance(-delta_t);
        Ok(())
    }
}

} // verus!
