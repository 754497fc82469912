//! Protocol constants and the pure arithmetic of the lending contract:
//! interest, fees and the dynamic liquidation threshold.
use vstd::prelude::*;
use crate::state::LendingContract;
use crate::types::LendingError;

verus! {

/// Default platform fee = 1 % of interest (100 bps) until governance changes it.
pub const DEFAULT_PLATFORM_FEE_BPS: u32 = 100;
/// Safety ceiling: the fee can never exceed 10 % of interest (1000 bps).
pub const MAX_PLATFORM_FEE_BPS: u32 = 1000;
/// Default flash-loan fee = 0.09 % of the borrowed amount (9 bps).
pub const DEFAULT_FLASH_LOAN_FEE_BPS: u32 = 9;
/// Safety ceiling on the flash-loan fee (500 bps = 5 %).
pub const MAX_FLASH_LOAN_FEE_BPS: u32 = 500;
/// Fee for switching rate models: 0.5% of remaining debt (50 bps).
pub const RATE_SWITCH_FEE_BPS: u32 = 50;
/// Cooldown between rate switches: 24 hours in seconds.
pub const RATE_SWITCH_COOLDOWN_SECS: u64 = 86_400;
/// Default collateral factor for assets without explicit config: 75% LTV.
pub const DEFAULT_COLLATERAL_FACTOR_BPS: u32 = 7500;
/// Price precision: 7 decimal places (matching the stroops convention).
pub const PRICE_PRECISION: i128 = 10_000_000;
/// Maximum allowed collateral factor (95% LTV).
pub const MAX_COLLATERAL_FACTOR_BPS: u32 = 9500;
/// Minimum allowed collateral factor (10% LTV).
pub const MIN_COLLATERAL_FACTOR_BPS: u32 = 1000;
/// Minimum borrow amount, to prevent dust loans (1 XLM = 10_000_000 stroops).
pub const MIN_BORROW_AMOUNT: i128 = 10_000_000;
/// Seconds in a day.
pub const SECS_PER_DAY: u64 = 86_400;
/// Basis points in one whole.
pub const BPS_DENOMINATOR: i128 = 10_000;

/// Division that rounds toward zero, as Rust's `/` on integers does.
pub open spec fn trunc_div(a: int, b: int) -> int {
    if a >= 0 {
        a / b
    } else {
        -((-a) / b)
    }
}

/// Splitting `x` at multiples of `d`: with `q = trunc_div(x, d)` and the
/// remainder `r = x - q * d`, the scaled quotient `trunc_div(x * f, d)` is
/// `q * f + trunc_div(r * f, d)`. The remainder is smaller than `d` in size
/// and `q * d` lies between 0 and `x`.
pub proof fn lemma_scaled_div_split(x: int, f: int, d: int)
    requires
        f >= 0,
        d > 0,
    ensures
        trunc_div(x * f, d) == trunc_div(x, d) * f + trunc_div((x - trunc_div(x, d) * d) * f, d),
        -d < x - trunc_div(x, d) * d < d,
        x >= 0 ==> 0 <= trunc_div(x, d) * d <= x,
        x < 0 ==> x <= trunc_div(x, d) * d <= 0,
{
    let y = if x >= 0 { x } else { -x };
    let q = y / d;
    let r = y % d;
    vstd::arithmetic::div_mod::lemma_fundamental_div_mod(y, d);
    vstd::arithmetic::div_mod::lemma_mod_pos_bound(y, d);
    vstd::arithmetic::div_mod::lemma_div_pos_is_pos(y, d);
    assert(y * f == r * f + (q * f) * d) by (nonlinear_arith)
        requires
            y == d * q + r,
    ;
    assert(r * f >= 0 && q * f >= 0) by (nonlinear_arith)
        requires
            r >= 0,
            q >= 0,
            f >= 0,
    ;
    assert(0 <= q * d) by (nonlinear_arith)
        requires
            q >= 0,
            d > 0,
    ;
    vstd::arithmetic::div_mod::lemma_hoist_over_denominator(r * f, q * f, d as nat);
    vstd::arithmetic::div_mod::lemma_div_pos_is_pos(r * f, d);
    if x >= 0 {
        assert(trunc_div(x, d) == q);
        assert(x - q * d == r);
    } else {
        assert(trunc_div(x, d) == -q);
        assert((-q) * d == -(q * d)) by (nonlinear_arith);
        assert(x - (-q) * d == -r);
        assert(x * f == -(y * f)) by (nonlinear_arith)
            requires
                y == -x,
        ;
        assert((-r) * f == -(r * f)) by (nonlinear_arith);
        assert((-q) * f == -(q * f)) by (nonlinear_arith);
        assert((-q) * d == -(q * d)) by (nonlinear_arith);
    }
}

/// The value fits in an `i128`.
pub open spec fn fits_i128(x: int) -> bool {
    i128::MIN <= x <= i128::MAX
}

/// Simple interest over `days` days at `rate_bps` basis points per year:
/// `principal * rate_bps * days / (10_000 * 365)`, rounded toward zero;
/// `None` when either product leaves the `i128` range.
pub open spec fn interest_of(principal: int, rate_bps: int, days: int) -> Option<int> {
    let by_rate = principal * rate_bps;
    let numerator = by_rate * days;
    if fits_i128(by_rate) && fits_i128(numerator) {
        Some(trunc_div(numerator, 3_650_000))
    } else {
        None
    }
}

/// `amount * bps / 10_000`, rounded toward zero; `None` when the product
/// leaves the `i128` range.
pub open spec fn bps_share_of(amount: int, bps: int) -> Option<int> {
    if fits_i128(amount * bps) {
        Some(trunc_div(amount * bps, 10_000))
    } else {
        None
    }
}

/// The reputation bonus in bps: 1.5 bps per point of reputation (rounded
/// down), at most 1500 bps.
pub open spec fn reputation_bonus_of(reputation_score: int) -> int {
    let bonus = (reputation_score * 15) / 10;
    if bonus > 1500 {
        1500
    } else {
        bonus
    }
}

/// The dynamic liquidation threshold in bps: 7500, plus the reputation
/// bonus, minus half the asset volatility (rounded down), clamped to
/// [5000, 9000].
pub open spec fn liquidation_threshold_of(reputation_score: int, volatility_bps: int) -> int {
    let raw = 7500 + reputation_bonus_of(reputation_score) - volatility_bps / 2;
    if raw < 5000 {
        5000
    } else if raw > 9000 {
        9000
    } else {
        raw
    }
}

/// Law: the liquidation threshold never falls as reputation grows, never
/// rises as volatility grows, and stays within [5000, 9000].
pub proof fn law_liquidation_threshold_monotone(score: int, more_score: int, volatility: int, more_volatility: int)
    requires
        0 <= score <= more_score,
        0 <= volatility <= more_volatility,
    ensures
        liquidation_threshold_of(score, volatility) <= liquidation_threshold_of(more_score, volatility),
        liquidation_threshold_of(score, more_volatility) <= liquidation_threshold_of(score, volatility),
        5000 <= liquidation_threshold_of(score, volatility) <= 9000,
{
    assert((score * 15) / 10 <= (more_score * 15) / 10) by (nonlinear_arith)
        requires
            0 <= score <= more_score,
    ;
    assert(volatility / 2 <= more_volatility / 2) by (nonlinear_arith)
        requires
            0 <= volatility <= more_volatility,
    ;
}

/// `amount * bps / 10_000` with an overflow check.
pub fn bps_share(amount: i128, bps: u32) -> (r: Result<i128, LendingError>)
    ensures
        match r {
            Ok(v) => bps_share_of(amount as int, bps as int) == Some(v as int),
            Err(e) => e == LendingError::ArithmeticOverflow && bps_share_of(
                amount as int,
                bps as int,
            ) is None,
        },
{
    match amount.checked_mul(bps as i128) {
        Some(product) => Ok(product / BPS_DENOMINATOR),
        None => Err(LendingError::ArithmeticOverflow),
    }
}

impl LendingContract {
    /// interest = principal × rate_bps × days / (10_000 × 365)
    ///
    /// A product that leaves the `i128` range is reported as
    /// `ArithmeticOverflow` instead of wrapping around.
    pub fn calculate_interest(principal: i128, rate_bps: u32, days: u32) -> (r: Result<
        i128,
        LendingError,
    >)
        ensures
            match r {
                Ok(v) => interest_of(principal as int, rate_bps as int, days as int) == Some(
                    v as int,
                ),
                Err(e) => e == LendingError::ArithmeticOverflow && interest_of(
                    principal as int,
                    rate_bps as int,
                    days as int,
                ) is None,
            },
    {
        let by_rate = match principal.checked_mul(rate_bps as i128) {
            Some(v) => v,
            None => {
                return Err(LendingError::ArithmeticOverflow);
            },
        };
        match by_rate.checked_mul(days as i128) {
            Some(numerator) => Ok(numerator / 3_650_000),
            None => Err(LendingError::ArithmeticOverflow),
        }
    }

    /// Dynamic liquidation threshold from the borrower's reputation score and
    /// the asset's volatility.
    ///
    /// - Base threshold: 7500 basis points (75.00%).
    /// - Reputation bonus: adds `reputation_score * 1.5` basis points (max 1500 bps).
    /// - Volatility penalty: subtracts half of the asset volatility bps.
    /// - Clamped between 5000 bps (50.00%) and 9000 bps (90.00%).
    pub fn calculate_liquidation_threshold(
        borrower_reputation_score: u32,
        asset_volatility_bps: u32,
    ) -> (r: u32)
        ensures
            r as int == liquidation_threshold_of(
                borrower_reputation_score as int,
                asset_volatility_bps as int,
            ),
            5000 <= r <= 9000,
    {
        let base_threshold: u64 = 7500;
        let uncapped_bonus: u64 = (borrower_reputation_score as u64) * 15 / 10;
        let reputation_bonus: u64 = if uncapped_bonus > 1500 {
            1500
        } else {
            uncapped_bonus
        };
        let volatility_penalty: u64 = (asset_volatility_bps as u64) / 2;
        let with_bonus: u64 = base_threshold + reputation_bonus;
        let threshold: u64 = if with_bonus >= volatility_penalty {
            with_bonus - volatility_penalty
        } else {
            0
        };
        if threshold < 5000 {
            5000
        } else if threshold > 9000 {
            9000
        } else {
            threshold as u32
        }
    }
}

} // verus!
