use liquidity_pool::math::{
    FixedPoint,
    accrued_interest, borrow_rate, capital_utilisation, deposit_rate, MathModule, ReserveData,
};

fn curve() -> ReserveData {
    ReserveData {
        r_base: 0,
        r_slope1: 100_000_000,
        r_slope2: 1_000_000_000,
        u_optimal: 800_000_000,
        reserve_factor: 100_000_000,
    }
}

#[test]
fn utilisation_values() {
    assert_eq!(capital_utilisation(0, 0), 0);
    assert_eq!(capital_utilisation(200, 800), 200_000_000);
    assert_eq!(capital_utilisation(1, 2), 333_333_333);
    // an emptied reserve gives full utilisation
    assert_eq!(capital_utilisation(5, 0), 1_000_000_000);
}

#[test]
fn utilisation_grows_with_borrowing() {
    let reserve = 1000u128;
    let mut last = 0u128;
    for b in [0u128, 1, 10, 200, 999, 5000, 1_000_000] {
        let u = capital_utilisation(b, reserve);
        assert!(u >= last);
        assert!(u < 1_000_000_000);
        last = u;
    }
}

#[test]
fn rate_on_both_slopes() {
    let rd = curve();
    assert_eq!(borrow_rate(&rd, 0), 0);
    assert_eq!(borrow_rate(&rd, 200_000_000), 25_000_000);
    assert_eq!(borrow_rate(&rd, 800_000_000), 100_000_000);
    // halfway up the steep slope: 0.1 + 1.0 * 0.5
    assert_eq!(borrow_rate(&rd, 900_000_000), 600_000_000);
    assert_eq!(borrow_rate(&rd, 1_000_000_000), 1_100_000_000);
}

#[test]
fn rate_is_continuous_and_non_decreasing() {
    let rd = curve();
    let at_kink = borrow_rate(&rd, 800_000_000);
    assert_eq!(borrow_rate(&rd, 799_999_999), at_kink - 1);
    assert_eq!(borrow_rate(&rd, 800_000_001), at_kink + 5);
    let mut last = 0u128;
    let mut u = 0u128;
    while u <= 1_000_000_000 {
        let r = borrow_rate(&rd, u);
        assert!(r >= last);
        last = r;
        u += 12_345_678;
    }
}

#[test]
fn deposit_rate_value() {
    // 2.5% borrow rate, 20% utilisation, 10% reserve factor
    assert_eq!(deposit_rate(200_000_000, 25_000_000, 100_000_000), 4_500_000);
    assert_eq!(deposit_rate(0, 25_000_000, 100_000_000), 0);
    assert_eq!(deposit_rate(1_000_000_000, 25_000_000, 1_000_000_000), 0);
}

#[test]
fn interest_values() {
    let year = 31_536_000u64;
    assert_eq!(accrued_interest(200_000, year, 25_000_000), 5_000);
    assert_eq!(accrued_interest(200_000, year / 2, 25_000_000), 2_500);
    assert_eq!(accrued_interest(200_000, 0, 25_000_000), 0);
    // linear, not compounded: two years is twice one year
    assert_eq!(accrued_interest(1_000_000, 2 * year, 100_000_000), 200_000);
    // the product saturates instead of overflowing
    assert_eq!(
        accrued_interest(u128::MAX, 1, 2),
        u128::MAX / 31_536_000_000_000_000
    );
    assert_eq!(accrued_interest(u128::MAX, 0, u128::MAX), 0);
}

#[test]
fn math_module_values() {
    assert_eq!(FixedPoint.multiply(20_000_000, 30_000_000), 60_000_000);
    assert_eq!(FixedPoint.calculate_ratio(1, 4), 2_500_000);
    assert_eq!(FixedPoint.calculate_percentage_of(250_000_000, 1000), 250);
}

#[test]
fn curve_validity() {
    assert!(curve().is_valid());
    let mut rd = curve();
    rd.reserve_factor = 1_000_000_001;
    assert!(!rd.is_valid());
}

#[test]
fn rate_takes_the_fixed_point_ratio_first() {
    let rd = ReserveData {
        r_base: 0,
        r_slope1: 400_000_000,
        r_slope2: 1_000_000_000,
        u_optimal: 800_000_000,
        reserve_factor: 0,
    };
    // 2 / 0.8 is 2 in fixed point (truncated), and 0.4 * 2e-9 truncates to nothing
    assert_eq!(borrow_rate(&rd, 2), 0);
    // on the upper slope: 3 / 0.2 is 15 in fixed point, and 1.0 * 15e-9 is 15
    assert_eq!(borrow_rate(&rd, 800_000_003), 400_000_015);
    // a step of a third of the upper span: ratio 333_333_333
    let rd = ReserveData { u_optimal: 700_000_000, ..rd };
    assert_eq!(borrow_rate(&rd, 800_000_000), 400_000_000 + 333_333_333);
}
