use liquidity_pool::codec::encode_metadata;
use liquidity_pool::math::ReserveData;
use liquidity_pool::pool::{ErrorKind, LiquidityPool, PoolError};

const ASSET: &[u8] = b"USDC-123456";
const BORROW: &[u8] = b"DEBT-abcdef";
const LEND: &[u8] = b"LEND-abcdef";
const COLLATERAL: &[u8] = b"EGLD";
const LENDER: &[u8] = &[7u8; 32];
const USER: &[u8] = &[9u8; 32];
const YEAR: u64 = 31_536_000;

fn curve() -> ReserveData {
    ReserveData {
        r_base: 0,
        r_slope1: 100_000_000,
        r_slope2: 1_000_000_000,
        u_optimal: 800_000_000,
        reserve_factor: 100_000_000,
    }
}

fn pool_with(reserve: u128) -> LiquidityPool {
    let mut p = LiquidityPool::init(ASSET, BORROW, LEND, LENDER, curve(), 100).unwrap();
    if reserve > 0 {
        p.deposit(LENDER, ASSET, reserve).unwrap();
    }
    p
}

/// Borrows `amount` at `now` and stages all of it for repayment; returns the repay id.
fn borrow_and_stage(p: &mut LiquidityPool, amount: u128, now: u64) -> (Vec<u8>, Vec<u8>) {
    let meta = p.borrow(COLLATERAL, amount, 0, now).unwrap();
    let bytes = encode_metadata(&meta);
    let id = p.lock_for_repay(LENDER, USER, BORROW, 1, &bytes, amount).unwrap();
    (meta.position_id.clone(), id)
}

#[test]
fn scenario_rate_after_borrow() {
    let mut p = pool_with(1000);
    p.borrow(COLLATERAL, 200, 0, 10).unwrap();
    assert_eq!(p.get_reserve(), 800);
    assert_eq!(p.get_total_borrow(), 200);
    assert_eq!(p.get_capital_utilisation(), 200_000_000);
    assert_eq!(p.get_borrow_rate(), 25_000_000);
    // 0.025 * 0.2 * 0.9
    assert_eq!(p.get_deposit_rate(), 4_500_000);
}

#[test]
fn borrow_zero_is_refused() {
    let mut p = pool_with(1000);
    let e = p.borrow(COLLATERAL, 0, 0, 10).unwrap_err();
    assert_eq!(e, PoolError::ZeroAmount);
    assert_eq!(e.kind(), ErrorKind::Validation);
    assert_eq!(p.get_reserve(), 1000);
    assert_eq!(p.reserve(BORROW), 0);
    assert_eq!(p.get_total_borrow(), 0);
}

#[test]
fn borrow_needs_reserve() {
    let mut p = pool_with(0);
    assert_eq!(p.borrow(COLLATERAL, 5, 0, 10).unwrap_err(), PoolError::InsufficientReserve);
    let mut p = pool_with(100);
    assert_eq!(p.borrow(COLLATERAL, 101, 0, 10).unwrap_err(), PoolError::InsufficientReserve);
    assert_eq!(p.get_reserve(), 100);
}

#[test]
fn borrow_records_position_and_metadata() {
    let mut p = pool_with(1000);
    let meta = p.borrow(COLLATERAL, 300, 0, 42).unwrap();
    assert_eq!(meta.position_id.len(), 32);
    assert_eq!(meta.timestamp, 42);
    assert_eq!(meta.collateral_amount, 300);
    assert_eq!(meta.collateral_identifier, COLLATERAL.to_vec());
    assert_eq!(meta.collateral_timestamp, 42);
    let d = p.debt_position(&meta.position_id).unwrap();
    assert_eq!(d.size, 300);
    assert!(!d.is_liquidated);
    assert_eq!(p.reserve(BORROW), 300);
    assert_eq!(p.get_reserve(), 700);
    // a second borrow gets a fresh identifier
    let meta2 = p.borrow(COLLATERAL, 100, 0, 43).unwrap();
    assert_ne!(meta.position_id, meta2.position_id);
}

#[test]
fn partial_repay_leaves_remainder() {
    let mut p = pool_with(1000);
    let (_, id) = borrow_and_stage(&mut p, 100, 50);
    let snap = p.repay(LENDER, &id, ASSET, 40, 50).unwrap();
    assert_eq!(snap.amount, 40);
    assert_eq!(p.repay_position(&id).unwrap().amount, 60);
    assert_eq!(p.get_reserve(), 940);
    assert_eq!(p.get_total_borrow(), 60);
}

#[test]
fn exact_payment_with_interest_closes() {
    let mut p = pool_with(1_000_000);
    let (_, id) = borrow_and_stage(&mut p, 200_000, 1000);
    let now = 1000 + YEAR;
    // utilisation 20%: 2.5% a year on 200_000
    let interest = p.get_debt_interest(200_000, 1000, now);
    assert_eq!(interest, 5_000);
    // paying the principal alone is neither a partial nor a full payment
    assert_eq!(
        p.repay(LENDER, &id, ASSET, 200_000, now).unwrap_err(),
        PoolError::InvalidRepaymentAmount
    );
    assert_eq!(
        p.repay(LENDER, &id, ASSET, 205_001, now).unwrap_err(),
        PoolError::InvalidRepaymentAmount
    );
    let snap = p.repay(LENDER, &id, ASSET, 205_000, now).unwrap();
    assert_eq!(snap.amount, 205_000);
    assert!(p.repay_position(&id).is_none());
    assert_eq!(p.get_reserve(), 1_000_000);
    assert_eq!(p.get_total_borrow(), 0);
    assert_eq!(p.reserve(BORROW), 0);
    assert_eq!(p.get_earned_interest(), 5_000);
    assert_eq!(
        p.repay(LENDER, &id, ASSET, 1, now).unwrap_err(),
        PoolError::UnknownRepayPosition
    );
}

#[test]
fn repay_without_elapsed_time_closes_at_principal() {
    let mut p = pool_with(1000);
    let (_, id) = borrow_and_stage(&mut p, 100, 5);
    p.repay(LENDER, &id, ASSET, 100, 5).unwrap();
    assert!(p.repay_position(&id).is_none());
    assert_eq!(p.get_reserve(), 1000);
}

#[test]
fn reserve_conservation_over_a_sequence() {
    let mut p = pool_with(500);
    p.deposit(LENDER, ASSET, 700).unwrap();
    let (_, id) = borrow_and_stage(&mut p, 300, 0);
    p.withdraw(LENDER, USER, LEND, 150).unwrap();
    p.repay(LENDER, &id, ASSET, 120, 0).unwrap();
    let outstanding = p.get_total_borrow();
    assert_eq!(outstanding, 180);
    assert_eq!(p.get_reserve(), 500 + 700 - 150 - outstanding);
}

#[test]
fn liquidation_with_wrong_amount_is_refused() {
    let mut p = pool_with(1000);
    let meta = p.borrow(COLLATERAL, 200, 0, 10).unwrap();
    let e = p.liquidate(LENDER, &meta.position_id, ASSET, 199, 10).unwrap_err();
    assert_eq!(e, PoolError::InvalidLiquidationAmount);
    assert_eq!(e.kind(), ErrorKind::InsufficientFunds);
    let e = p.liquidate(LENDER, &meta.position_id, ASSET, 201, 10).unwrap_err();
    assert_eq!(e, PoolError::InvalidLiquidationAmount);
    assert!(!p.debt_position(&meta.position_id).unwrap().is_liquidated);
}

#[test]
fn liquidated_position_is_final() {
    let mut p = pool_with(1000);
    let meta = p.borrow(COLLATERAL, 200, 0, 10).unwrap();
    let bytes = encode_metadata(&meta);
    let staged = p.lock_for_repay(LENDER, USER, BORROW, 1, &bytes, 50).unwrap();
    let data = p.liquidate(LENDER, &meta.position_id, ASSET, 200, 10).unwrap();
    assert_eq!(data.collateral_token, COLLATERAL.to_vec());
    assert_eq!(data.amount, 200);
    assert!(p.debt_position(&meta.position_id).unwrap().is_liquidated);
    assert_eq!(
        p.liquidate(LENDER, &meta.position_id, ASSET, 200, 10).unwrap_err(),
        PoolError::AlreadyLiquidated
    );
    assert_eq!(
        p.lock_for_repay(LENDER, USER, BORROW, 2, &bytes, 10).unwrap_err(),
        PoolError::AlreadyLiquidated
    );
    assert_eq!(
        p.repay(LENDER, &staged, ASSET, 10, 10).unwrap_err(),
        PoolError::AlreadyLiquidated
    );
}

#[test]
fn liquidation_needs_low_health() {
    let mut p = pool_with(1000);
    let meta = p.borrow(COLLATERAL, 200, 150, 10).unwrap();
    let e = p.liquidate(LENDER, &meta.position_id, ASSET, 200, 10).unwrap_err();
    assert_eq!(e, PoolError::HealthFactorTooHigh);
    assert_eq!(e.kind(), ErrorKind::StateConflict);
}

#[test]
fn liquidation_of_unknown_position() {
    let mut p = pool_with(1000);
    let e = p.liquidate(LENDER, &[1u8; 32], ASSET, 200, 10).unwrap_err();
    assert_eq!(e, PoolError::UnknownDebtPosition);
    assert_eq!(e.kind(), ErrorKind::NotFound);
}

#[test]
fn only_the_lending_pool_may_act() {
    let mut p = pool_with(1000);
    let meta = p.borrow(COLLATERAL, 200, 0, 10).unwrap();
    let bytes = encode_metadata(&meta);
    let e = p.deposit(USER, ASSET, 10).unwrap_err();
    assert_eq!(e, PoolError::Unauthorized);
    assert_eq!(e.kind(), ErrorKind::Authorization);
    assert_eq!(p.withdraw(USER, USER, LEND, 10).unwrap_err(), PoolError::Unauthorized);
    assert_eq!(
        p.lock_for_repay(USER, USER, BORROW, 1, &bytes, 10).unwrap_err(),
        PoolError::Unauthorized
    );
    assert_eq!(p.repay(USER, &[0u8; 32], ASSET, 10, 10).unwrap_err(), PoolError::Unauthorized);
    assert_eq!(
        p.liquidate(USER, &meta.position_id, ASSET, 200, 10).unwrap_err(),
        PoolError::Unauthorized
    );
}

#[test]
fn staging_checks() {
    let mut p = pool_with(1000);
    let meta = p.borrow(COLLATERAL, 200, 0, 10).unwrap();
    let bytes = encode_metadata(&meta);
    assert_eq!(
        p.lock_for_repay(LENDER, USER, BORROW, 1, &bytes, 0).unwrap_err(),
        PoolError::ZeroAmount
    );
    assert_eq!(
        p.lock_for_repay(LENDER, &[0u8; 32], BORROW, 1, &bytes, 10).unwrap_err(),
        PoolError::InvalidAddress
    );
    assert_eq!(
        p.lock_for_repay(LENDER, USER, LEND, 1, &bytes, 10).unwrap_err(),
        PoolError::UnsupportedToken
    );
    let e = p.lock_for_repay(LENDER, USER, BORROW, 1, &bytes[1..], 10).unwrap_err();
    assert_eq!(e, PoolError::MetadataDecode);
    assert_eq!(e.kind(), ErrorKind::Validation);
    assert_eq!(
        p.lock_for_repay(LENDER, USER, BORROW, 1, &bytes, 201).unwrap_err(),
        PoolError::InvalidRepaymentAmount
    );
    let mut forged = meta;
    forged.position_id = vec![3u8; 32];
    assert_eq!(
        p.lock_for_repay(LENDER, USER, BORROW, 1, &encode_metadata(&forged), 10).unwrap_err(),
        PoolError::UnknownDebtPosition
    );
    let id = p.lock_for_repay(LENDER, USER, BORROW, 1, &bytes, 10).unwrap();
    assert_eq!(id.len(), 32);
    assert_eq!(p.repay_position(&id).unwrap().amount, 10);
    let e = p.lock_for_repay(LENDER, USER, BORROW, 1, &bytes, 10).unwrap_err();
    assert_eq!(e, PoolError::DuplicateStaging);
    assert_eq!(e.kind(), ErrorKind::StateConflict);
    // another amount or another receipt nonce stages separately
    let id2 = p.lock_for_repay(LENDER, USER, BORROW, 1, &bytes, 11).unwrap();
    let id3 = p.lock_for_repay(LENDER, USER, BORROW, 2, &bytes, 10).unwrap();
    assert_ne!(id, id2);
    assert_ne!(id, id3);
}

#[test]
fn repay_checks() {
    let mut p = pool_with(1000);
    let (_, id) = borrow_and_stage(&mut p, 100, 5);
    assert_eq!(p.repay(LENDER, &id, ASSET, 0, 5).unwrap_err(), PoolError::ZeroAmount);
    assert_eq!(p.repay(LENDER, &id, BORROW, 10, 5).unwrap_err(), PoolError::UnsupportedToken);
    assert_eq!(
        p.repay(LENDER, &[4u8; 32], ASSET, 10, 5).unwrap_err(),
        PoolError::UnknownRepayPosition
    );
    assert_eq!(p.repay(LENDER, &id, ASSET, 101, 5).unwrap_err(), PoolError::InvalidRepaymentAmount);
    assert_eq!(p.repay_position(&id).unwrap().amount, 100);
}

#[test]
fn repay_beyond_outstanding_borrows_is_refused() {
    let mut p = pool_with(1000);
    let meta = p.borrow(COLLATERAL, 100, 0, 5).unwrap();
    let bytes = encode_metadata(&meta);
    let a = p.lock_for_repay(LENDER, USER, BORROW, 1, &bytes, 100).unwrap();
    let b = p.lock_for_repay(LENDER, USER, BORROW, 1, &bytes, 99).unwrap();
    p.repay(LENDER, &a, ASSET, 100, 5).unwrap();
    assert_eq!(p.repay(LENDER, &b, ASSET, 99, 5).unwrap_err(), PoolError::InsufficientReserve);
}

#[test]
fn withdraw_checks() {
    let mut p = pool_with(100);
    assert_eq!(p.withdraw(LENDER, USER, ASSET, 10).unwrap_err(), PoolError::UnsupportedToken);
    assert_eq!(
        p.withdraw(LENDER, &[0u8; 32], LEND, 10).unwrap_err(),
        PoolError::InvalidAddress
    );
    assert_eq!(p.withdraw(LENDER, USER, LEND, 0).unwrap_err(), PoolError::ZeroAmount);
    let e = p.withdraw(LENDER, USER, LEND, 101).unwrap_err();
    assert_eq!(e, PoolError::InsufficientReserve);
    assert_eq!(e.kind(), ErrorKind::InsufficientFunds);
    p.withdraw(LENDER, USER, LEND, 100).unwrap();
    assert_eq!(p.get_reserve(), 0);
    assert_eq!(p.withdraw(LENDER, USER, LEND, 1).unwrap_err(), PoolError::InsufficientReserve);
}

#[test]
fn deposit_checks() {
    let mut p = pool_with(0);
    assert_eq!(p.deposit(LENDER, BORROW, 10).unwrap_err(), PoolError::UnsupportedToken);
    assert_eq!(p.deposit(LENDER, ASSET, 0).unwrap_err(), PoolError::ZeroAmount);
    let max = liquidity_pool::math::MAX_POOL_BALANCE;
    p.deposit(LENDER, ASSET, max).unwrap();
    let e = p.deposit(LENDER, ASSET, 1).unwrap_err();
    assert_eq!(e, PoolError::AmountTooLarge);
    assert_eq!(e.kind(), ErrorKind::Validation);
    assert_eq!(p.get_reserve(), max);
}

#[test]
fn init_checks() {
    let mut bad = curve();
    bad.u_optimal = 0;
    let e = LiquidityPool::init(ASSET, BORROW, LEND, LENDER, bad, 100).err().unwrap();
    assert_eq!(e, PoolError::InvalidCurve);
    let mut bad = curve();
    bad.u_optimal = 1_000_000_000;
    assert!(LiquidityPool::init(ASSET, BORROW, LEND, LENDER, bad, 100).is_err());
    let e = LiquidityPool::init(ASSET, ASSET, LEND, LENDER, curve(), 100).err().unwrap();
    assert_eq!(e, PoolError::UnsupportedToken);
    let p = LiquidityPool::init(ASSET, BORROW, LEND, LENDER, curve(), 100).unwrap();
    assert_eq!(p.get_pool_asset(), &ASSET.to_vec());
    assert_eq!(p.get_borrow_token(), &BORROW.to_vec());
    assert_eq!(p.get_reserve(), 0);
    assert_eq!(p.get_capital_utilisation(), 0);
    assert_eq!(p.get_borrow_rate(), 0);
}

#[test]
fn repay_ids_are_never_reused() {
    let mut p = pool_with(1000);
    let meta = p.borrow(COLLATERAL, 100, 0, 5).unwrap();
    let bytes = encode_metadata(&meta);
    let id = p.lock_for_repay(LENDER, USER, BORROW, 1, &bytes, 100).unwrap();
    p.repay(LENDER, &id, ASSET, 100, 5).unwrap();
    assert!(p.repay_position(&id).is_none());
    assert_eq!(
        p.lock_for_repay(LENDER, USER, BORROW, 1, &bytes, 100).unwrap_err(),
        PoolError::DuplicateStaging
    );
}

#[test]
fn settled_principal_counts_receipt_units() {
    let mut p = pool_with(1_000_000);
    let (_, id) = borrow_and_stage(&mut p, 200_000, 1000);
    let now = 1000 + YEAR;
    assert_eq!(p.settled_principal(&id, 205_000, now), Some(200_000));
    assert_eq!(p.settled_principal(&id, 50_000, now), Some(50_000));
    assert_eq!(p.settled_principal(&[6u8; 32], 50_000, now), None);
}
