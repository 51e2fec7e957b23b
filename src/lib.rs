//! A constant-product automated market maker: a two-asset liquidity pool that
//! prices swaps from its reserves, charges a proportional fee on the input
//! side, and tracks liquidity shares; plus a simple account ledger that
//! applies the amounts the pool computes.
//!
//! All prices are computed with exact integer arithmetic and truncated
//! towards zero, so the pool never pays out more than the constant-product
//! formula yields.

pub mod pricing;
pub mod pool;
pub mod account;
pub mod laws;
