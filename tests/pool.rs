use liquidity_pool::account::Account;
use liquidity_pool::pool::LiquidityPool;
use liquidity_pool::pricing::PoolError;

fn reserves(p: &LiquidityPool) -> (i32, i32, i32, i64) {
    (p.e, p.t, p.l, p.k)
}

#[test]
fn new_pool_computes_k() {
    let p = LiquidityPool::new(100, 250, 100, 3000);
    assert_eq!(reserves(&p), (100, 250, 100, 25000));
    assert_eq!(p.fee_ppm, 3000);
}

#[test]
fn add_liquidity_scenario() {
    let mut p = LiquidityPool::new(100, 100, 100, 3000);
    assert_eq!(p.add_liquidity(100), Ok(()));
    assert_eq!(reserves(&p), (200, 201, 200, 40200));
}

#[test]
fn driver_sequence() {
    let mut p = LiquidityPool::new(100, 100, 100, 3000);
    let mut first = Account::new(100, 100);
    let mut second = Account::new(100, 100);
    assert_eq!(p.add_liquidity(100), Ok(()));
    assert_eq!(reserves(&p), (200, 201, 200, 40200));
    assert_eq!(p.add_liquidity(200), Ok(()));
    assert_eq!(reserves(&p), (400, 403, 400, 161200));
    assert_eq!(first.swap_from_eth(&mut p, 100), Ok(()));
    assert_eq!((first.e_balance, first.t_balance), (0, 180));
    assert_eq!(reserves(&p), (500, 323, 400, 161500));
    assert_eq!(second.swap_from_token(&mut p, 100), Ok(()));
    assert_eq!((second.e_balance, second.t_balance), (217, 0));
    assert_eq!(reserves(&p), (383, 423, 400, 162009));
}

#[test]
fn add_liquidity_rejects_non_positive() {
    let mut p = LiquidityPool::new(100, 100, 100, 3000);
    assert_eq!(p.add_liquidity(0), Err(PoolError::InvalidArgument));
    assert_eq!(reserves(&p), (100, 100, 100, 10000));
    assert_eq!(p.add_liquidity(-5), Err(PoolError::InvalidArgument));
    assert_eq!(reserves(&p), (100, 100, 100, 10000));
}

#[test]
fn add_liquidity_to_empty_reserve_fails() {
    let mut p = LiquidityPool::new(0, 100, 100, 3000);
    assert_eq!(p.add_liquidity(10), Err(PoolError::InsufficientLiquidity));
    assert_eq!(reserves(&p), (0, 100, 100, 0));
}

#[test]
fn add_liquidity_overflow_fails() {
    let mut p = LiquidityPool::new(i32::MAX, 1, 1, 0);
    assert_eq!(p.add_liquidity(1), Err(PoolError::Overflow));
    assert_eq!(reserves(&p), (i32::MAX, 1, 1, i32::MAX as i64));
}

#[test]
fn remove_liquidity_takes_share_of_reserves() {
    let mut p = LiquidityPool::new(200, 201, 200, 3000);
    assert_eq!(p.remove_liquidity(100), Ok(()));
    assert_eq!(reserves(&p), (100, 100, 100, 10000));
}

#[test]
fn remove_liquidity_truncates() {
    let mut p = LiquidityPool::new(10, 7, 3, 0);
    assert_eq!(p.remove_liquidity(1), Ok(()));
    // 10 * 2 / 3 = 6.67 and 7 * 2 / 3 = 4.67, both truncated
    assert_eq!(reserves(&p), (6, 4, 2, 24));
}

#[test]
fn remove_liquidity_rejects_bad_amounts() {
    let mut p = LiquidityPool::new(100, 100, 100, 3000);
    assert_eq!(p.remove_liquidity(0), Err(PoolError::InvalidArgument));
    assert_eq!(p.remove_liquidity(-3), Err(PoolError::InvalidArgument));
    assert_eq!(p.remove_liquidity(101), Err(PoolError::InsufficientLiquidity));
    assert_eq!(reserves(&p), (100, 100, 100, 10000));
    assert_eq!(p.remove_liquidity(100), Ok(()));
    assert_eq!(reserves(&p), (0, 0, 0, 0));
}

#[test]
fn add_then_remove_issued_shares_favors_pool() {
    let mut p = LiquidityPool::new(3, 3, 4, 3000);
    assert_eq!(p.add_liquidity(1), Ok(()));
    assert_eq!(reserves(&p), (4, 5, 5, 20));
    assert_eq!(p.remove_liquidity(5 - 4), Ok(()));
    assert_eq!(reserves(&p), (3, 4, 4, 12));
    assert!(p.e >= 3 && p.t >= 3);
}

#[test]
fn add_then_remove_round_trip_on_even_pool() {
    let mut p = LiquidityPool::new(100, 100, 100, 3000);
    assert_eq!(p.add_liquidity(100), Ok(()));
    let issued = p.l - 100;
    assert_eq!(p.remove_liquidity(issued), Ok(()));
    // 200 * 100 / 200 = 100 and 201 * 100 / 200 = 100.5, truncated
    assert_eq!(reserves(&p), (100, 100, 100, 10000));
}

#[test]
fn input_price_values() {
    assert_eq!(LiquidityPool::get_input_price(100, 400, 403, 3000), Ok(80));
    assert_eq!(LiquidityPool::get_input_price(100, 100, 100, 0), Ok(50));
    assert_eq!(LiquidityPool::get_input_price(0, 100, 100, 3000), Ok(0));
    assert_eq!(LiquidityPool::get_input_price(-1, 100, 100, 3000), Err(PoolError::InvalidArgument));
    assert_eq!(LiquidityPool::get_input_price(10, 0, 100, 3000), Err(PoolError::InsufficientLiquidity));
    assert_eq!(LiquidityPool::get_input_price(10, 100, 0, 3000), Ok(0));
    assert_eq!(LiquidityPool::get_input_price(10, 100, -1, 3000), Err(PoolError::InsufficientLiquidity));
}

#[test]
fn input_price_never_drains_reserve() {
    assert_eq!(LiquidityPool::get_input_price(i32::MAX, 1, 1000, 0), Ok(999));
}

#[test]
fn output_price_values() {
    // 100 * 1 / (99 * 0.997) = 1.013
    assert_eq!(LiquidityPool::get_output_price(1, 100, 100, 3000), Ok(1));
    // 100 * 50 / 50 = 100 with no fee
    assert_eq!(LiquidityPool::get_output_price(50, 100, 100, 0), Ok(100));
    // 100 * 10 / (90 * 0.997) = 11.14
    assert_eq!(LiquidityPool::get_output_price(10, 100, 100, 3000), Ok(11));
    assert_eq!(LiquidityPool::get_output_price(-1, 100, 100, 3000), Err(PoolError::InvalidArgument));
    assert_eq!(LiquidityPool::get_output_price(100, 100, 100, 3000), Err(PoolError::InsufficientLiquidity));
    assert_eq!(LiquidityPool::get_output_price(1, 0, 100, 3000), Ok(0));
    assert_eq!(LiquidityPool::get_output_price(1, -1, 100, 3000), Err(PoolError::InsufficientLiquidity));
    assert_eq!(LiquidityPool::get_output_price(1, 100, 0, 3000), Err(PoolError::InsufficientLiquidity));
    assert_eq!(LiquidityPool::get_output_price(99, i32::MAX, 100, 0), Err(PoolError::Overflow));
}

#[test]
fn eth_to_token_exact_rejects_whole_reserve() {
    let mut p = LiquidityPool::new(100, 100, 100, 3000);
    assert_eq!(p.eth_to_token_exact(100), Err(PoolError::InsufficientLiquidity));
    assert_eq!(p.eth_to_token_exact(150), Err(PoolError::InsufficientLiquidity));
    assert_eq!(reserves(&p), (100, 100, 100, 10000));
}

#[test]
fn eth_to_token_exact_pays_quoted_price() {
    let mut p = LiquidityPool::new(100, 100, 100, 3000);
    assert_eq!(p.eth_to_token_exact(10), Ok(11));
    assert_eq!(reserves(&p), (111, 90, 100, 9990));
}

#[test]
fn token_to_eth_exact_pays_quoted_price() {
    let mut p = LiquidityPool::new(100, 100, 100, 3000);
    assert_eq!(p.token_to_eth_exact(10), Ok(11));
    assert_eq!(reserves(&p), (90, 111, 100, 9990));
    assert_eq!(p.token_to_eth_exact(90), Err(PoolError::InsufficientLiquidity));
    assert_eq!(reserves(&p), (90, 111, 100, 9990));
}

#[test]
fn exact_output_swap_can_lower_k_by_truncation() {
    let mut p = LiquidityPool::new(100, 100, 100, 3000);
    assert_eq!(p.eth_to_token_exact(1), Ok(1));
    assert_eq!(reserves(&p), (101, 99, 100, 9999));
    assert!(p.k > 10000 - 99);
}

#[test]
fn swap_overflow_leaves_pool_unchanged() {
    let mut p = LiquidityPool::new(i32::MAX - 5, 100, 100, 3000);
    assert_eq!(p.eth_to_token(10), Err(PoolError::Overflow));
    assert_eq!(p.token_to_eth(-1), Err(PoolError::InvalidArgument));
    assert_eq!(reserves(&p), (i32::MAX - 5, 100, 100, (i32::MAX as i64 - 5) * 100));
}

#[test]
fn round_trip_swap_returns_less() {
    let mut p = LiquidityPool::new(1000, 1000, 1000, 3000);
    let got = p.eth_to_token(100).unwrap();
    assert_eq!(got, 90);
    assert_eq!(reserves(&p), (1100, 910, 1000, 1001000));
    let back = p.token_to_eth(got).unwrap();
    assert_eq!(back, 98);
    assert!(back < 100);
    assert_eq!(reserves(&p), (1002, 1000, 1000, 1002000));
}

#[test]
fn round_trip_swap_without_fee_returns_at_most_input() {
    let mut p = LiquidityPool::new(1000, 1000, 1000, 0);
    let got = p.eth_to_token(100).unwrap();
    assert_eq!(got, 90);
    let back = p.token_to_eth(got).unwrap();
    assert!(back <= 100);
    assert_eq!(back, 99);
}

#[test]
fn swaps_keep_product() {
    for fee in [0u32, 3000, 500_000] {
        let mut p = LiquidityPool::new(1234, 5678, 100, fee);
        for amount in [1, 7, 100, 999, 5000] {
            let before = p.k;
            p.eth_to_token(amount).unwrap();
            assert!(p.k >= before);
            let before = p.k;
            p.token_to_eth(amount).unwrap();
            assert!(p.k >= before);
        }
    }
}

#[test]
fn account_identifier_is_lower_hex() {
    let a = Account::new(100, 50);
    assert_eq!(a.address.len(), 40);
    assert!(a.address.chars().all(|c| c.is_ascii_digit() || ('a'..='f').contains(&c)));
    assert_eq!((a.e_balance, a.t_balance), (100, 50));
    let b = Account::new(100, 50);
    assert_ne!(a.address, b.address);
}

#[test]
fn balances_may_go_negative() {
    let mut a = Account::new(5, 5);
    a.update_e_balance(-10);
    a.update_t_balance(3);
    assert_eq!((a.e_balance, a.t_balance), (-5, 8));
}

#[test]
fn swap_exact_debits_both_balances() {
    let mut p = LiquidityPool::new(100, 100, 100, 3000);
    let mut a = Account::new(100, 100);
    assert_eq!(a.swap_exact(&mut p, 10), Ok(()));
    assert_eq!((a.e_balance, a.t_balance), (89, 90));
    assert_eq!(reserves(&p), (111, 90, 100, 9990));
}

#[test]
fn account_swap_errors_leave_both_unchanged() {
    let mut p = LiquidityPool::new(100, 100, 100, 3000);
    let mut a = Account::new(i32::MIN, 0);
    assert_eq!(a.swap_from_eth(&mut p, 1), Err(PoolError::Overflow));
    assert_eq!(reserves(&p), (100, 100, 100, 10000));
    assert_eq!((a.e_balance, a.t_balance), (i32::MIN, 0));
    assert_eq!(a.swap_exact(&mut p, 100), Err(PoolError::InsufficientLiquidity));
    assert_eq!(a.swap_from_token(&mut p, -1), Err(PoolError::InvalidArgument));
    assert_eq!(reserves(&p), (100, 100, 100, 10000));
    let mut b = Account::new(0, i32::MIN);
    assert_eq!(b.swap_from_token(&mut p, 1), Err(PoolError::Overflow));
    assert_eq!(reserves(&p), (100, 100, 100, 10000));
}

#[test]
fn swap_into_empty_output_reserve_pays_nothing() {
    let mut p = LiquidityPool::new(100, 0, 100, 3000);
    assert_eq!(p.eth_to_token(50), Ok(0));
    assert_eq!(reserves(&p), (150, 0, 100, 0));
}

#[test]
fn input_price_grows_with_input() {
    let mut last = 0;
    for dx in [0, 1, 5, 50, 500, 5000, 50000] {
        let q = LiquidityPool::get_input_price(dx, 1000, 800, 3000).unwrap();
        assert!(q >= last);
        last = q;
    }
    // 800 * 49850 / 50850 = 784.27
    assert_eq!(last, 784);
}

#[test]
fn input_price_falls_with_fee() {
    let low = LiquidityPool::get_input_price(500, 1000, 1000, 0).unwrap();
    let mid = LiquidityPool::get_input_price(500, 1000, 1000, 3000).unwrap();
    let high = LiquidityPool::get_input_price(500, 1000, 1000, 500_000).unwrap();
    // 1000 * 500 / 1500 = 333.3; 1000 * 498.5 / 1498.5 = 332.7; 1000 * 250 / 1250 = 200
    assert_eq!((low, mid, high), (333, 332, 200));
}

#[test]
fn output_price_grows_with_output() {
    let mut last = 0;
    for dy in [0, 1, 10, 100, 500, 900, 999] {
        let q = LiquidityPool::get_output_price(dy, 1000, 1000, 3000).unwrap();
        assert!(q >= last);
        last = q;
    }
    // 1000 * 999 / (1 * 0.997) = 1002006.01
    assert_eq!(last, 1002006);
}

#[test]
fn round_trip_from_token_returns_less() {
    let mut p = LiquidityPool::new(1000, 1000, 1000, 3000);
    let got = p.token_to_eth(100).unwrap();
    assert_eq!(got, 90);
    let back = p.eth_to_token(got).unwrap();
    assert_eq!(back, 98);
}

#[test]
fn higher_fee_round_trip_returns_no_more() {
    let mut results = Vec::new();
    for fee in [0u32, 3000, 100_000] {
        let mut p = LiquidityPool::new(1000, 1000, 1000, fee);
        let got = p.eth_to_token(100).unwrap();
        results.push(p.token_to_eth(got).unwrap());
    }
    assert!(results[0] >= results[1] && results[1] >= results[2]);
    assert_eq!(results[0], 99);
    assert_eq!(results[1], 98);
}
