//! Fixed-point arithmetic and the interest-rate model.
use vstd::prelude::*;

verus! {

/// Fixed-point scale of rates and fractions: `PRECISION` stands for 100%.
pub const PRECISION: u64 = 1_000_000_000;

/// One percent in the fixed-point scale.
pub const ONE: u64 = 10_000_000;

/// Seconds in a (365-day) year, the period over which rates are quoted.
pub const SECONDS_PER_YEAR: u64 = 31_536_000;

/// `PRECISION * SECONDS_PER_YEAR`: the divisor that turns rate-seconds into a fraction.
pub const YEAR_SCALE: u128 = 31_536_000_000_000_000;

/// Largest pool size (reserve plus outstanding borrows) whose utilisation can be
/// computed exactly in 128 bits.
pub const MAX_POOL_BALANCE: u128 = 340_282_366_920_938_463_463_374_607_431;

/// Helpers on fixed-point fractions.
pub trait MathModule {
    /// `first * second` where both are expressed in units of `ONE`.
    fn multiply(&self, first: u128, second: u128) -> (r: u128)
        requires
            first * second <= u128::MAX,
        ensures
            r == first * second / (ONE as int),
    ;

    /// `first / second`, expressed in units of `ONE`.
    fn calculate_ratio(&self, first: u128, second: u128) -> (r: u128)
        requires
            second > 0,
            first * ONE <= u128::MAX,
        ensures
            r == first * ONE / (second as int),
    ;

    /// `percentage` (in units of `PRECISION`) of `number`.
    fn calculate_percentage_of(&self, percentage: u128, number: u128) -> (r: u128)
        requires
            number * percentage <= u128::MAX,
        ensures
            r == number * percentage / (PRECISION as int),
    ;
}

/// Fixed-point arithmetic on `u128`.
pub struct FixedPoint;

impl MathModule for FixedPoint {
    fn multiply(&self, first: u128, second: u128) -> (r: u128) {
        first * second / (ONE as u128)
    }

    fn calculate_ratio(&self, first: u128, second: u128) -> (r: u128) {
        first * (ONE as u128) / second
    }

    fn calculate_percentage_of(&self, percentage: u128, number: u128) -> (r: u128) {
        number * percentage / (PRECISION as u128)
    }
}

/// Parameters of the piecewise-linear borrow-rate curve, all in units of `PRECISION`.
pub struct ReserveData {
    pub r_base: u64,
    pub r_slope1: u64,
    pub r_slope2: u64,
    pub u_optimal: u64,
    pub reserve_factor: u64,
}

impl ReserveData {
    /// The kink lies strictly inside `(0, 100%)` and the reserve factor is a fraction.
    pub open spec fn wf(&self) -> bool {
        0 < self.u_optimal < PRECISION && self.reserve_factor <= PRECISION
    }

    pub fn is_valid(&self) -> (r: bool)
        ensures
            r == self.wf(),
    {
        0 < self.u_optimal && self.u_optimal < PRECISION && self.reserve_factor <= PRECISION
    }
}

/// Fraction of the pool that is lent out: `borrowed / (borrowed + reserve)`, zero for an
/// empty pool.
pub open spec fn utilisation_of(borrowed: int, reserve: int) -> int {
    if borrowed + reserve == 0 {
        0
    } else {
        borrowed * PRECISION / (borrowed + reserve)
    }
}

/// How far `u` has climbed the lower slope, as a fixed-point fraction (truncated).
pub open spec fn lower_ratio(rd: ReserveData, u: int) -> int {
    u * PRECISION / (rd.u_optimal as int)
}

/// How far `u` has climbed the upper slope, as a fixed-point fraction (truncated).
pub open spec fn upper_ratio(rd: ReserveData, u: int) -> int {
    (u - rd.u_optimal) * PRECISION / (PRECISION - rd.u_optimal)
}

/// The borrow rate at utilisation `u`: each slope is scaled by the fixed-point ratio of
/// the distance covered on it, and each division truncates.
pub open spec fn rate_of(rd: ReserveData, u: int) -> int {
    if u <= rd.u_optimal {
        rd.r_base + rd.r_slope1 * lower_ratio(rd, u) / (PRECISION as int)
    } else {
        rd.r_base + rd.r_slope1 + rd.r_slope2 * upper_ratio(rd, u) / (PRECISION as int)
    }
}

/// The deposit rate: the borrow rate times utilisation, less the reserve factor.
pub open spec fn deposit_rate_of(u: int, borrow_rate: int, reserve_factor: int) -> int {
    borrow_rate * u / (PRECISION as int) * (PRECISION - reserve_factor) / (PRECISION as int)
}

/// `x`, capped at the largest `u128`.
pub open spec fn saturate(x: int) -> int {
    if x > u128::MAX {
        u128::MAX as int
    } else {
        x
    }
}

/// Simple (non-compounding) interest on `principal` over `elapsed` seconds at the
/// yearly `rate`; the product saturates at the largest `u128`.
pub open spec fn interest_of(principal: int, elapsed: int, rate: int) -> int {
    saturate(principal * rate * elapsed) / (PRECISION * SECONDS_PER_YEAR)
}

/// Seconds from `from` to `now`, zero if `now` is earlier.
pub open spec fn elapsed_between(from: u64, now: u64) -> int {
    if now >= from {
        now - from
    } else {
        0
    }
}

/// Utilisation of a pool with `borrowed` lent out and `reserve` left.
pub fn capital_utilisation(borrowed: u128, reserve: u128) -> (r: u128)
    requires
        borrowed + reserve <= MAX_POOL_BALANCE,
    ensures
        r == utilisation_of(borrowed as int, reserve as int),
        r <= PRECISION,
{
    let total = borrowed + reserve;
    if total == 0 {
        return 0;
    }
    proof {
        assert(borrowed * PRECISION <= total * PRECISION) by (nonlinear_arith)
            requires
                borrowed <= total,
        ;
        assert(total * PRECISION <= u128::MAX) by (nonlinear_arith)
            requires
                total <= MAX_POOL_BALANCE,
        ;
        assert(borrowed * PRECISION / (total as int) <= PRECISION) by (nonlinear_arith)
            requires
                borrowed * PRECISION <= total * PRECISION,
                total > 0,
        ;
    }
    borrowed * (PRECISION as u128) / total
}

/// The borrow rate at utilisation `u`, following the two slopes of the curve.
pub fn borrow_rate(rd: &ReserveData, u: u128) -> (r: u128)
    requires
        rd.wf(),
        u <= PRECISION,
    ensures
        r == rate_of(*rd, u as int),
{
    let p = PRECISION as u128;
    if u <= rd.u_optimal as u128 {
        let uo = rd.u_optimal as u128;
        proof {
            assert(u * PRECISION <= uo * PRECISION) by (nonlinear_arith)
                requires
                    u <= uo,
            ;
            assert(u * PRECISION / (uo as int) <= PRECISION) by (nonlinear_arith)
                requires
                    u * PRECISION <= uo * PRECISION,
                    uo >= 1,
                    u >= 0,
            ;
        }
        let ratio = u * p / uo;
        proof {
            assert(rd.r_slope1 * ratio <= rd.r_slope1 * PRECISION) by (nonlinear_arith)
                requires
                    ratio <= PRECISION,
            ;
            assert(rd.r_slope1 * ratio / (PRECISION as int) <= rd.r_slope1) by (nonlinear_arith)
                requires
                    rd.r_slope1 * ratio <= rd.r_slope1 * PRECISION,
                    rd.r_slope1 * ratio >= 0,
            ;
        }
        rd.r_base as u128 + (rd.r_slope1 as u128) * ratio / p
    } else {
        let excess = u - rd.u_optimal as u128;
        let span = (PRECISION - rd.u_optimal) as u128;
        proof {
            assert(excess * PRECISION <= span * PRECISION) by (nonlinear_arith)
                requires
                    excess <= span,
            ;
            assert(excess * PRECISION / (span as int) <= PRECISION) by (nonlinear_arith)
                requires
                    excess * PRECISION <= span * PRECISION,
                    span >= 1,
                    excess >= 0,
            ;
        }
        let ratio = excess * p / span;
        proof {
            assert(rd.r_slope2 * ratio <= rd.r_slope2 * PRECISION) by (nonlinear_arith)
                requires
                    ratio <= PRECISION,
            ;
            assert(rd.r_slope2 * ratio / (PRECISION as int) <= rd.r_slope2) by (nonlinear_arith)
                requires
                    rd.r_slope2 * ratio <= rd.r_slope2 * PRECISION,
                    rd.r_slope2 * ratio >= 0,
            ;
        }
        rd.r_base as u128 + rd.r_slope1 as u128 + (rd.r_slope2 as u128) * ratio / p
    }
}

/// The deposit rate for utilisation `u`, borrow rate `br` and reserve factor `rf`.
pub fn deposit_rate(u: u128, br: u128, rf: u64) -> (r: u128)
    requires
        u <= PRECISION,
        br <= 4 * u64::MAX,
        rf <= PRECISION,
    ensures
        r == deposit_rate_of(u as int, br as int, rf as int),
{
    proof {
        assert(br * u <= 4 * u64::MAX * PRECISION) by (nonlinear_arith)
            requires
                br <= 4 * u64::MAX,
                u <= PRECISION,
        ;
    }
    let scaled = br * u / (PRECISION as u128);
    proof {
        assert(scaled <= br * u) by (nonlinear_arith)
            requires
                scaled == br * u / (PRECISION as int),
                br * u >= 0,
        ;
        assert(scaled * (PRECISION - rf) <= 4 * u64::MAX * PRECISION * PRECISION)
            by (nonlinear_arith)
            requires
                scaled <= 4 * u64::MAX * PRECISION,
                PRECISION - rf <= PRECISION,
                PRECISION - rf >= 0,
        ;
    }
    scaled * ((PRECISION - rf) as u128) / (PRECISION as u128)
}

/// Interest accrued on `principal` over `elapsed` seconds at the yearly `rate`.
pub fn accrued_interest(principal: u128, elapsed: u64, rate: u128) -> (r: u128)
    ensures
        r == interest_of(principal as int, elapsed as int, rate as int),
{
    proof {
        assert(principal * rate * elapsed == (principal * rate) * elapsed) by (nonlinear_arith);
        assert(principal * rate >= 0) by (nonlinear_arith);
        assert(principal * rate * elapsed >= 0) by (nonlinear_arith);
    }
    let numerator: u128 = match principal.checked_mul(rate) {
        Some(x) => match x.checked_mul(elapsed as u128) {
            Some(y) => y,
            None => u128::MAX,
        },
        None => {
            if elapsed == 0 {
                proof {
                    assert(principal * rate * elapsed == 0) by (nonlinear_arith)
                        requires
                            elapsed == 0,
                    ;
                }
                0
            } else {
                proof {
                    assert(principal * rate * elapsed >= principal * rate) by (nonlinear_arith)
                        requires
                            elapsed >= 1,
                            principal * rate >= 0,
                    ;
                }
                u128::MAX
            }
        },
    };
    assert(numerator == saturate(principal * rate * elapsed));
    numerator / YEAR_SCALE
}

/// Utilisation never decreases as more is lent out against a fixed reserve.
pub proof fn lemma_utilisation_monotone(b1: int, b2: int, reserve: int)
    requires
        0 <= b1 <= b2,
        0 <= reserve,
    ensures
        utilisation_of(b1, reserve) <= utilisation_of(b2, reserve),
{
    if b1 + reserve > 0 {
        let q = b1 * PRECISION / (b1 + reserve);
        let p = PRECISION as int;
        assert(q * (b1 + reserve) <= b1 * p) by (nonlinear_arith)
            requires
                q == b1 * p / (b1 + reserve),
                b1 + reserve > 0,
        ;
        assert(q <= p) by (nonlinear_arith)
            requires
                q == b1 * p / (b1 + reserve),
                b1 + reserve > 0,
                b1 <= b1 + reserve,
                p > 0,
        ;
        assert(q * (b2 + reserve) <= b2 * p) by (nonlinear_arith)
            requires
                q * (b1 + reserve) <= b1 * p,
                q <= p,
                b1 <= b2,
                q >= 0,
        ;
        assert(q <= b2 * p / (b2 + reserve)) by (nonlinear_arith)
            requires
                q * (b2 + reserve) <= b2 * p,
                b2 + reserve > 0,
        ;
    } else {
        assert(utilisation_of(b2, reserve) >= 0) by (nonlinear_arith)
            requires
                b2 >= 0,
                reserve >= 0,
        ;
    }
}

/// Utilisation is a fraction below 100% whenever anything is left in reserve (or
/// nothing is lent out).
pub proof fn lemma_utilisation_range(borrowed: int, reserve: int)
    requires
        0 <= borrowed,
        0 <= reserve,
        reserve > 0 || borrowed == 0,
    ensures
        0 <= utilisation_of(borrowed, reserve) < PRECISION,
{
    if borrowed + reserve > 0 {
        let p = PRECISION as int;
        assert(0 <= borrowed * p / (borrowed + reserve) < p) by (nonlinear_arith)
            requires
                borrowed >= 0,
                reserve > 0,
                p > 0,
        ;
    }
}

/// Each slope's share of the rate lies between nothing and the slope's full height.
proof fn lemma_slope_share(slope: int, ratio: int)
    requires
        slope >= 0,
        0 <= ratio <= PRECISION,
    ensures
        0 <= slope * ratio / (PRECISION as int) <= slope,
{
    assert(0 <= slope * ratio / (PRECISION as int) <= slope) by (nonlinear_arith)
        requires
            slope >= 0,
            0 <= ratio <= PRECISION,
    ;
}

/// On utilisations up to 100%, the rate lies between the base rate and the sum of the
/// base rate and both slopes.
pub proof fn lemma_rate_bounds(rd: ReserveData, u: int)
    requires
        rd.wf(),
        0 <= u <= PRECISION,
    ensures
        rd.r_base <= rate_of(rd, u) <= rd.r_base + rd.r_slope1 + rd.r_slope2,
{
    let uo = rd.u_optimal as int;
    let p = PRECISION as int;
    if u <= uo {
        let x = lower_ratio(rd, u);
        assert(0 <= x <= p) by (nonlinear_arith)
            requires
                x == u * p / uo,
                0 <= u <= uo,
                uo > 0,
                p > 0,
        ;
        lemma_slope_share(rd.r_slope1 as int, x);
    } else {
        let span = p - uo;
        let y = upper_ratio(rd, u);
        assert(0 <= y <= p) by (nonlinear_arith)
            requires
                y == (u - uo) * p / span,
                0 < u - uo <= span,
                p > 0,
        ;
        lemma_slope_share(rd.r_slope2 as int, y);
    }
}

/// Both pieces of the borrow-rate curve meet at the kink: the upper piece, evaluated
/// at `u_optimal`, gives the value of the lower one there.
pub proof fn lemma_rate_continuous_at_kink(rd: ReserveData)
    requires
        rd.wf(),
    ensures
        rate_of(rd, rd.u_optimal as int) == rd.r_base + rd.r_slope1,
        rd.r_base + rd.r_slope1 + rd.r_slope2 * upper_ratio(rd, rd.u_optimal as int) / (
        PRECISION as int) == rd.r_base + rd.r_slope1,
{
    let uo = rd.u_optimal as int;
    assert(uo * PRECISION / uo == PRECISION) by (nonlinear_arith)
        requires
            uo > 0,
    ;
    assert(rd.r_slope1 * PRECISION / (PRECISION as int) == rd.r_slope1) by (nonlinear_arith);
    assert(upper_ratio(rd, uo) == 0);
    assert(rd.r_slope2 * 0 / (PRECISION as int) == 0) by (nonlinear_arith);
}

/// The borrow rate never decreases as utilisation grows.
pub proof fn lemma_rate_monotone(rd: ReserveData, u1: int, u2: int)
    requires
        rd.wf(),
        0 <= u1 <= u2 <= PRECISION,
    ensures
        rate_of(rd, u1) <= rate_of(rd, u2),
{
    let uo = rd.u_optimal as int;
    let s1 = rd.r_slope1 as int;
    let s2 = rd.r_slope2 as int;
    let span = PRECISION - uo;
    let p = PRECISION as int;
    if u1 <= uo {
        let x1 = lower_ratio(rd, u1);
        assert(0 <= x1 <= p) by (nonlinear_arith)
            requires
                x1 == u1 * p / uo,
                0 <= u1 <= uo,
                uo > 0,
                p > 0,
        ;
        lemma_slope_share(s1, x1);
        if u2 <= uo {
            let x2 = lower_ratio(rd, u2);
            assert(x1 <= x2) by (nonlinear_arith)
                requires
                    x1 == u1 * p / uo,
                    x2 == u2 * p / uo,
                    0 <= u1 <= u2,
                    uo > 0,
                    p > 0,
            ;
            assert(s1 * x1 / p <= s1 * x2 / p) by (nonlinear_arith)
                requires
                    s1 >= 0,
                    0 <= x1 <= x2,
                    p > 0,
            ;
        } else {
            let y2 = upper_ratio(rd, u2);
            assert(0 <= y2 <= p) by (nonlinear_arith)
                requires
                    y2 == (u2 - uo) * p / span,
                    0 < u2 - uo <= span,
                    p > 0,
            ;
            lemma_slope_share(s2, y2);
        }
    } else {
        let y1 = upper_ratio(rd, u1);
        let y2 = upper_ratio(rd, u2);
        assert(0 <= y1 <= y2) by (nonlinear_arith)
            requires
                y1 == (u1 - uo) * p / span,
                y2 == (u2 - uo) * p / span,
                0 < u1 - uo <= u2 - uo,
                span > 0,
                p > 0,
        ;
        assert(s2 * y1 / p <= s2 * y2 / p) by (nonlinear_arith)
            requires
                s2 >= 0,
                0 <= y1 <= y2,
                p > 0,
        ;
    }
}

} // verus!
