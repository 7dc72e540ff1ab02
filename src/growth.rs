use vstd::prelude::*;
use crate::error::PlanError;
use vstd::arithmetic::power::pow;

verus! {

/// Months in a year.
pub const MONTHS_PER_YEAR: u64 = 12;

/// An annual rate is given in basis points; a monthly rate of `bp` basis points
/// per year is `bp / MONTHLY_RATE_DENOM`.
pub const MONTHLY_RATE_DENOM: u64 = 120_000;

/// One month of interest at `rate_bp` basis points per year, rounded down.
pub open spec fn accrue(x: int, rate_bp: int) -> int {
    x * (MONTHLY_RATE_DENOM + rate_bp) / (MONTHLY_RATE_DENOM as int)
}

/// The balance after `m` months of "contribute `c`, then accrue a month's interest".
pub open spec fn balance_after(c: int, rate_bp: int, m: nat) -> int
    decreases m,
{
    if m == 0 {
        0
    } else {
        accrue(balance_after(c, rate_bp, (m - 1) as nat) + c, rate_bp)
    }
}

/// Interest at a non-negative rate never shrinks a non-negative amount.
pub proof fn lemma_accrue_grows(x: int, rate_bp: int)
    requires
        x >= 0,
        rate_bp >= 0,
    ensures
        accrue(x, rate_bp) >= x,
{
    let d = MONTHLY_RATE_DENOM as int;
    assert(x * (d + rate_bp) >= x * d) by (nonlinear_arith)
        requires x >= 0, rate_bp >= 0, d > 0;
    vstd::arithmetic::div_mod::lemma_div_is_ordered(x * d, x * (d + rate_bp), d);
    vstd::arithmetic::div_mod::lemma_div_by_multiple(x, d);
}

/// A month's interest computed without forming `x * (MONTHLY_RATE_DENOM + rate_bp)`:
/// the whole multiples of `MONTHLY_RATE_DENOM` in `x` earn exactly, and only the
/// remainder is rounded down.
pub proof fn lemma_accrue_split(x: int, rate_bp: int)
    requires
        x >= 0,
        rate_bp >= 0,
    ensures
        accrue(x, rate_bp) == x + (x / (MONTHLY_RATE_DENOM as int)) * rate_bp + ((x % (
        MONTHLY_RATE_DENOM as int)) * rate_bp) / (MONTHLY_RATE_DENOM as int),
{
    let d = MONTHLY_RATE_DENOM as int;
    let q = x / d;
    let m = x % d;
    vstd::arithmetic::div_mod::lemma_fundamental_div_mod(x, d);
    vstd::arithmetic::div_mod::lemma_mod_bound(x, d);
    let j = q * (d + rate_bp) + m;
    assert(x * (d + rate_bp) == m * rate_bp + j * d) by (nonlinear_arith)
        requires x == d * q + m, j == q * (d + rate_bp) + m;
    vstd::arithmetic::div_mod::lemma_hoist_over_denominator(m * rate_bp, j, d as nat);
    assert(j == x + q * rate_bp) by (nonlinear_arith)
        requires x == d * q + m, j == q * (d + rate_bp) + m;
}

pub proof fn lemma_balance_nonneg(c: int, rate_bp: int, m: nat)
    requires
        c >= 0,
        rate_bp >= 0,
    ensures
        balance_after(c, rate_bp, m) >= 0,
    decreases m,
{
    if m > 0 {
        lemma_balance_nonneg(c, rate_bp, (m - 1) as nat);
        lemma_accrue_grows(balance_after(c, rate_bp, (m - 1) as nat) + c, rate_bp);
    }
}

/// Each month adds at least the contribution to the balance.
pub proof fn lemma_balance_step(c: int, rate_bp: int, m: nat)
    requires
        c >= 0,
        rate_bp >= 0,
    ensures
        balance_after(c, rate_bp, m + 1) >= balance_after(c, rate_bp, m) + c,
{
    lemma_balance_nonneg(c, rate_bp, m);
    lemma_accrue_grows(balance_after(c, rate_bp, m) + c, rate_bp);
}

/// Over any stretch of months the balance gains at least the contributions made.
pub proof fn lemma_balance_gains(c: int, rate_bp: int, m1: nat, m2: nat)
    requires
        c >= 0,
        rate_bp >= 0,
        m1 <= m2,
    ensures
        balance_after(c, rate_bp, m2) >= balance_after(c, rate_bp, m1) + (m2 - m1) * c,
    decreases m2 - m1,
{
    if m1 < m2 {
        let prev = (m2 - 1) as nat;
        lemma_balance_gains(c, rate_bp, m1, prev);
        lemma_balance_step(c, rate_bp, prev);
        assert((m2 - m1) * c == (prev - m1) * c + c) by (nonlinear_arith)
            requires prev == m2 - 1;
    } else {
        assert((m2 - m1) * c == 0) by (nonlinear_arith)
            requires m2 == m1;
    }
}

/// Report amounts are given in millionths of a yen.
pub const SUB_YEN: u64 = 1_000_000;

/// The simulator keeps its balance in trillionths of a yen, so that rounding
/// each month's interest down loses almost nothing.
pub const SIM_UNIT: u64 = 1_000_000_000_000;

/// Simulator units in a millionth of a yen.
pub const SIM_PER_MICRO: u64 = 1_000_000;

/// The balance in whole yen, rounded down, after `m` months of contributing `c`
/// yen a month.
pub open spec fn balance_yen(c: int, rate_bp: int, m: nat) -> int {
    balance_after(c * SIM_UNIT, rate_bp, m) / (SIM_UNIT as int)
}

/// In whole yen, too, the balance gains at least the contributions made.
pub proof fn lemma_balance_yen_grows(c: int, rate_bp: int, m1: nat, m2: nat)
    requires
        c >= 0,
        rate_bp >= 0,
        m1 <= m2,
    ensures
        balance_yen(c, rate_bp, m1) >= 0,
        balance_yen(c, rate_bp, m2) >= balance_yen(c, rate_bp, m1) + (m2 - m1) * c,
{
    let s = SIM_UNIT as int;
    let cs = c * s;
    assert(cs >= 0) by (nonlinear_arith)
        requires c >= 0, s > 0, cs == c * s;
    lemma_balance_gains(cs, rate_bp, m1, m2);
    lemma_balance_nonneg(cs, rate_bp, m1);
    let b1 = balance_after(cs, rate_bp, m1);
    let b2 = balance_after(cs, rate_bp, m2);
    let k = (m2 - m1) * c;
    assert((m2 - m1) * cs == k * s) by (nonlinear_arith)
        requires cs == c * s, k == (m2 - m1) * c;
    vstd::arithmetic::div_mod::lemma_div_is_ordered(b1 + k * s, b2, s);
    vstd::arithmetic::div_mod::lemma_hoist_over_denominator(b1, k, s as nat);
    vstd::arithmetic::div_mod::lemma_div_pos_is_pos(b1, s);
}

/// The error, if any, that a plan over `years` years at `rate_bp` meets, where
/// `overflows` tells whether its amounts grow past a `u64`.
pub open spec fn plan_error(rate_bp: int, years: int, overflows: bool) -> Option<PlanError> {
    if years == 0 {
        Some(PlanError::InvalidHorizon)
    } else if rate_bp == 0 {
        Some(PlanError::InvalidRate)
    } else if overflows {
        Some(PlanError::Overflow)
    } else {
        None
    }
}

/// Whether the year-end balance of a plan, in whole yen, grows past a `u64`.
pub open spec fn simulation_overflows(c: int, rate_bp: int, years: nat) -> bool {
    balance_yen(c, rate_bp, 12 * years) > u64::MAX
}

/// The balance, in trillionths of a yen, after `m` months of contributing `c`
/// yen a month.
pub open spec fn balance_sim(c: int, rate_bp: int, m: nat) -> int {
    balance_after(c * SIM_UNIT, rate_bp, m)
}

/// The same balance in millionths of a yen, rounded down.
pub open spec fn balance_micro(c: int, rate_bp: int, m: nat) -> int {
    balance_sim(c, rate_bp, m) / (SIM_PER_MICRO as int)
}

/// Year-end balances, in trillionths of a yen, for every year of a horizon, as
/// `simulate` reports them.
pub open spec fn year_end_balances(c: int, rate_bp: int, years: nat) -> Seq<int> {
    Seq::new(years, |i: int| balance_sim(c, rate_bp, (12 * (i + 1)) as nat))
}

/// Simulates a monthly plan: each month `monthly_contribution` is added, then a
/// month's interest at `annual_rate_bp` basis points per year accrues, rounded
/// down to a trillionth of a yen. Returns the balance at the end of each year, in
/// trillionths of a yen.
pub fn simulate(monthly_contribution: u64, annual_rate_bp: u32, years: u32) -> (r: Result<
    Vec<u128>,
    PlanError,
>)
    ensures
        match plan_error(annual_rate_bp as int, years as int, simulation_overflows(
            monthly_contribution as int,
            annual_rate_bp as int,
            years as nat,
        )) {
            Some(e) => r == Err::<Vec<u128>, PlanError>(e),
            None => r is Ok && r->Ok_0@.map_values(|b: u128| b as int) == year_end_balances(
                monthly_contribution as int,
                annual_rate_bp as int,
                years as nat,
            ),
        },
{
    if years == 0 {
        return Err(PlanError::InvalidHorizon);
    }
    if annual_rate_bp == 0 {
        return Err(PlanError::InvalidRate);
    }
    let ghost c = monthly_contribution as int;
    let ghost rate = annual_rate_bp as int;
    let ghost cs = c * SIM_UNIT;
    let months: u64 = years as u64 * MONTHS_PER_YEAR;
    let rate_wide: u128 = annual_rate_bp as u128;
    let denom: u128 = MONTHLY_RATE_DENOM as u128;
    let contribution: u128 = monthly_contribution as u128 * SIM_UNIT as u128;
    let mut balance: u128 = 0;
    let mut yearly: Vec<u128> = Vec::new();
    let mut month: u64 = 0;
    while month < months
        invariant
            months == 12 * years,
            denom == MONTHLY_RATE_DENOM,
            rate_wide == rate,
            c == monthly_contribution,
            cs == c * SIM_UNIT,
            contribution == cs,
            rate == annual_rate_bp,
            rate > 0,
            month <= months,
            balance == balance_after(cs, rate, month as nat),
            balance < 0x1_0000_0000_0000_0000 * 1_000_000_000_000,
            yearly@.len() == month / 12,
            forall|i: int|
                0 <= i < yearly@.len() ==> yearly@[i] as int == balance_sim(
                    c,
                    rate,
                    (12 * (i + 1)) as nat,
                ),
        decreases months - month,
    {
        let grown: u128 = balance + contribution;
        let whole: u128 = grown / denom;
        let part: u128 = grown % denom;
        proof {
            lemma_accrue_split(grown as int, rate);
            vstd::arithmetic::div_mod::lemma_div_is_ordered(
                grown as int,
                (0x2_0000_0000_0000_0000 * 1_000_000_000_000) as int,
                120_000,
            );
            vstd::arithmetic::div_mod::lemma_mod_bound(grown as int, denom as int);
        }
        assert(whole <= 400_000_000_000_000_000_000_000_000);
        assert(whole * rate_wide <= 400_000_000_000_000_000_000_000_000 * 0x1_0000_0000)
            by (nonlinear_arith)
            requires whole <= 400_000_000_000_000_000_000_000_000, rate_wide <= 0x1_0000_0000;
        assert(part * rate_wide <= 120_000 * 0x1_0000_0000) by (nonlinear_arith)
            requires part < 120_000, rate_wide <= 0x1_0000_0000;
        let next: u128 = grown + whole * rate_wide + part * rate_wide / denom;
        month = month + 1;
        assert(next == balance_after(cs, rate, month as nat));
        let next_yen: u128 = next / SIM_UNIT as u128;
        if next_yen > u64::MAX as u128 {
            proof {
                lemma_balance_yen_grows(c, rate, month as nat, months as nat);
            }
            return Err(PlanError::Overflow);
        }
        proof {
            vstd::arithmetic::div_mod::lemma_fundamental_div_mod(next as int, SIM_UNIT as int);
            vstd::arithmetic::div_mod::lemma_mod_bound(next as int, SIM_UNIT as int);
        }
        balance = next;
        if month % 12 == 0 {
            yearly.push(next);
        }
    }
    proof {
        assert(yearly@.map_values(|b: u128| b as int) =~= year_end_balances(c, rate, years as nat));
    }
    Ok(yearly)
}

/// Fixed-point scale of the annuity factor: `FIXED_ONE` stands for 1.
pub const FIXED_ONE: u64 = 1_000_000_000_000;

/// `(1 + monthly rate)^k` in fixed point, each month's growth rounded down.
pub open spec fn growth_power(rate_bp: int, k: nat) -> int
    decreases k,
{
    if k == 0 {
        FIXED_ONE as int
    } else {
        accrue(growth_power(rate_bp, (k - 1) as nat), rate_bp)
    }
}

/// The annuity factor `((1 + r)^n - 1) / r`, which is the sum of `(1 + r)^k` for
/// `k` below `n`, in fixed point.
pub open spec fn annuity_factor(rate_bp: int, n: nat) -> int
    decreases n,
{
    if n == 0 {
        0
    } else {
        annuity_factor(rate_bp, (n - 1) as nat) + growth_power(rate_bp, (n - 1) as nat)
    }
}

pub proof fn lemma_growth_power_at_least_one(rate_bp: int, k: nat)
    requires
        rate_bp >= 0,
    ensures
        growth_power(rate_bp, k) >= FIXED_ONE,
    decreases k,
{
    if k > 0 {
        lemma_growth_power_at_least_one(rate_bp, (k - 1) as nat);
        lemma_accrue_grows(growth_power(rate_bp, (k - 1) as nat), rate_bp);
    }
}

/// The annuity factor gains at least `FIXED_ONE` per month.
pub proof fn lemma_annuity_grows(rate_bp: int, n1: nat, n2: nat)
    requires
        rate_bp >= 0,
        n1 <= n2,
    ensures
        annuity_factor(rate_bp, n2) >= annuity_factor(rate_bp, n1) + (n2 - n1) * FIXED_ONE,
    decreases n2 - n1,
{
    if n1 < n2 {
        lemma_annuity_grows(rate_bp, n1, (n2 - 1) as nat);
        lemma_growth_power_at_least_one(rate_bp, (n2 - 1) as nat);
    }
}

/// Largest annuity factor that `required_monthly` works with.
pub const MAX_ANNUITY_FACTOR: u128 = 0x4000_0000_0000_0000_0000_0000;

/// A monthly contribution in yen, held exactly as `numerator / denominator`.
#[derive(Debug, Clone, Copy, PartialEq, Eq, Structural)]
pub struct Contribution {
    pub numerator: u128,
    pub denominator: u128,
}

/// What `required_monthly` returns: the target, scaled by `FIXED_ONE`, over the
/// annuity factor.
pub open spec fn required_result(target: u64, rate_bp: u32, years: u32) -> Result<
    Contribution,
    PlanError,
> {
    match plan_error(
        rate_bp as int,
        years as int,
        annuity_factor(rate_bp as int, 12 * years as nat) > MAX_ANNUITY_FACTOR,
    ) {
        Some(e) => Err(e),
        None => Ok(
            Contribution {
                numerator: (target * FIXED_ONE) as u128,
                denominator: annuity_factor(rate_bp as int, 12 * years as nat) as u128,
            },
        ),
    }
}

/// The monthly contribution needed to reach `target` after `years` years at
/// `annual_rate_bp` basis points per year: `target / (((1 + r)^n - 1) / r)` with
/// `r` the monthly rate and `n` the number of months, the annuity factor taken in
/// fixed point. The result is the exact quotient; nothing is rounded to the yen.
/// A zero rate is refused rather than given a formula of its own.
pub fn required_monthly(target: u64, annual_rate_bp: u32, years: u32) -> (r: Result<
    Contribution,
    PlanError,
>)
    ensures
        r == required_result(target, annual_rate_bp, years),
{
    if years == 0 {
        return Err(PlanError::InvalidHorizon);
    }
    if annual_rate_bp == 0 {
        return Err(PlanError::InvalidRate);
    }
    let ghost rate = annual_rate_bp as int;
    let months: u64 = years as u64 * MONTHS_PER_YEAR;
    let factor: u128 = MONTHLY_RATE_DENOM as u128 + annual_rate_bp as u128;
    let mut power: u128 = FIXED_ONE as u128;
    let mut sum: u128 = 0;
    let mut k: u64 = 0;
    while k < months
        invariant
            months == 12 * years,
            factor == MONTHLY_RATE_DENOM + rate,
            rate == annual_rate_bp,
            rate > 0,
            k <= months,
            power == growth_power(rate, k as nat),
            sum == annuity_factor(rate, k as nat),
            sum <= MAX_ANNUITY_FACTOR,
            power <= 0x1_0000_0000_0000_0000_0000_0000_0000,
        decreases months - k,
    {
        sum = sum + power;
        k = k + 1;
        if sum > MAX_ANNUITY_FACTOR {
            proof {
                lemma_annuity_grows(rate, k as nat, months as nat);
            }
            return Err(PlanError::Overflow);
        }
        assert(power * factor <= 0x4000_0000_0000_0000_0000_0000 * 0x2_0000_0000)
            by (nonlinear_arith)
            requires power <= 0x4000_0000_0000_0000_0000_0000, factor <= 0x2_0000_0000;
        let scaled: u128 = power * factor;
        proof {
            vstd::arithmetic::div_mod::lemma_div_is_ordered(
                scaled as int,
                (0x4000_0000_0000_0000_0000_0000 * 0x2_0000_0000) as int,
                MONTHLY_RATE_DENOM as int,
            );
        }
        power = scaled / MONTHLY_RATE_DENOM as u128;
    }
    Ok(Contribution { numerator: target as u128 * FIXED_ONE as u128, denominator: sum })
}

/// Under a positive contribution, the year-end balances that `simulate` reports
/// strictly increase from one year to any later one.
pub proof fn law_trajectory_strictly_increasing(
    monthly_contribution: u64,
    annual_rate_bp: u32,
    years: u32,
    i: int,
    j: int,
)
    requires
        monthly_contribution > 0,
        0 <= i < j < years,
    ensures
        year_end_balances(monthly_contribution as int, annual_rate_bp as int, years as nat)[i]
            < year_end_balances(monthly_contribution as int, annual_rate_bp as int, years as nat)[j],
{
    let cs = monthly_contribution * SIM_UNIT;
    lemma_balance_gains(cs, annual_rate_bp as int, (12 * (i + 1)) as nat, (12 * (j + 1)) as nat);
    assert((12 * (j + 1) - 12 * (i + 1)) * cs >= cs) by (nonlinear_arith)
        requires i < j, cs > 0;
}


/// A longer horizon asks for a strictly smaller monthly contribution: compared
/// as exact quotients, by cross-multiplying.
pub proof fn law_required_decreases_with_horizon(
    target: u64,
    annual_rate_bp: u32,
    years1: u32,
    years2: u32,
)
    requires
        target > 0,
        0 < years1 < years2,
        required_result(target, annual_rate_bp, years1) is Ok,
        required_result(target, annual_rate_bp, years2) is Ok,
    ensures
        required_result(target, annual_rate_bp, years2)->Ok_0.numerator * required_result(
            target,
            annual_rate_bp,
            years1,
        )->Ok_0.denominator < required_result(target, annual_rate_bp, years1)->Ok_0.numerator
            * required_result(target, annual_rate_bp, years2)->Ok_0.denominator,
{
    let n = target * FIXED_ONE;
    let a1 = annuity_factor(annual_rate_bp as int, 12 * years1 as nat);
    let a2 = annuity_factor(annual_rate_bp as int, 12 * years2 as nat);
    lemma_annuity_grows(annual_rate_bp as int, 12 * years1 as nat, 12 * years2 as nat);
    lemma_annuity_grows(annual_rate_bp as int, 0, 12 * years1 as nat);
    assert(0 < n <= 0xffff_ffff_ffff_ffff * 1_000_000_000_000) by (nonlinear_arith)
        requires 0 < target <= 0xffff_ffff_ffff_ffff, n == target * 1_000_000_000_000;
    assert(required_result(target, annual_rate_bp, years1)->Ok_0.numerator == n);
    assert(required_result(target, annual_rate_bp, years2)->Ok_0.numerator == n);
    assert(required_result(target, annual_rate_bp, years1)->Ok_0.denominator == a1);
    assert(required_result(target, annual_rate_bp, years2)->Ok_0.denominator == a2);
    assert(n * a1 < n * a2) by (nonlinear_arith)
        requires n > 0, a2 > a1;
}

/// Interest is no smaller on a larger amount or at a higher rate.
pub proof fn lemma_accrue_monotone(x1: int, x2: int, r1: int, r2: int)
    requires
        0 <= x1 <= x2,
        0 <= r1 <= r2,
    ensures
        accrue(x1, r1) <= accrue(x2, r2),
{
    let d = MONTHLY_RATE_DENOM as int;
    assert(x1 * (d + r1) <= x2 * (d + r2)) by (nonlinear_arith)
        requires 0 <= x1 <= x2, 0 <= r1 <= r2, d > 0;
    vstd::arithmetic::div_mod::lemma_div_is_ordered(x1 * (d + r1), x2 * (d + r2), d);
}

/// On an amount of at least `MONTHLY_RATE_DENOM`, a higher rate gives strictly
/// more interest, rounding down notwithstanding.
pub proof fn lemma_accrue_strict_in_rate(x: int, r1: int, r2: int)
    requires
        x >= MONTHLY_RATE_DENOM,
        0 <= r1 < r2,
    ensures
        accrue(x, r1) < accrue(x, r2),
{
    let d = MONTHLY_RATE_DENOM as int;
    assert(x * (d + r1) + d <= x * (d + r2)) by (nonlinear_arith)
        requires x >= d, 0 <= r1 < r2, d > 0;
    vstd::arithmetic::div_mod::lemma_div_is_ordered(x * (d + r1) + d, x * (d + r2), d);
    vstd::arithmetic::div_mod::lemma_hoist_over_denominator(x * (d + r1), 1, d as nat);
}

pub proof fn lemma_growth_power_rate_monotone(r1: int, r2: int, k: nat)
    requires
        0 <= r1 < r2,
    ensures
        growth_power(r1, k) <= growth_power(r2, k),
        k >= 1 ==> growth_power(r1, k) < growth_power(r2, k),
    decreases k,
{
    if k > 0 {
        let p1 = growth_power(r1, (k - 1) as nat);
        let p2 = growth_power(r2, (k - 1) as nat);
        lemma_growth_power_rate_monotone(r1, r2, (k - 1) as nat);
        lemma_growth_power_at_least_one(r1, (k - 1) as nat);
        lemma_accrue_strict_in_rate(p1, r1, r2);
        lemma_accrue_monotone(p1, p2, r2, r2);
    }
}

pub proof fn lemma_annuity_rate_monotone(r1: int, r2: int, n: nat)
    requires
        0 <= r1 < r2,
    ensures
        annuity_factor(r1, n) <= annuity_factor(r2, n),
        n >= 2 ==> annuity_factor(r1, n) < annuity_factor(r2, n),
    decreases n,
{
    if n > 0 {
        lemma_annuity_rate_monotone(r1, r2, (n - 1) as nat);
        lemma_growth_power_rate_monotone(r1, r2, (n - 1) as nat);
    }
}

/// A higher rate asks for a strictly smaller monthly contribution: compared as
/// exact quotients, by cross-multiplying.
pub proof fn law_required_decreases_with_rate(target: u64, rate1_bp: u32, rate2_bp: u32, years: u32)
    requires
        target > 0,
        0 < rate1_bp < rate2_bp,
        required_result(target, rate1_bp, years) is Ok,
        required_result(target, rate2_bp, years) is Ok,
    ensures
        required_result(target, rate2_bp, years)->Ok_0.numerator * required_result(
            target,
            rate1_bp,
            years,
        )->Ok_0.denominator < required_result(target, rate1_bp, years)->Ok_0.numerator
            * required_result(target, rate2_bp, years)->Ok_0.denominator,
{
    let n = target * FIXED_ONE;
    let a1 = annuity_factor(rate1_bp as int, 12 * years as nat);
    let a2 = annuity_factor(rate2_bp as int, 12 * years as nat);
    lemma_annuity_rate_monotone(rate1_bp as int, rate2_bp as int, 12 * years as nat);
    lemma_annuity_grows(rate1_bp as int, 0, 12 * years as nat);
    assert(0 < n <= 0xffff_ffff_ffff_ffff * 1_000_000_000_000) by (nonlinear_arith)
        requires 0 < target <= 0xffff_ffff_ffff_ffff, n == target * 1_000_000_000_000;
    assert(required_result(target, rate1_bp, years)->Ok_0.numerator == n);
    assert(required_result(target, rate2_bp, years)->Ok_0.numerator == n);
    assert(required_result(target, rate1_bp, years)->Ok_0.denominator == a1);
    assert(required_result(target, rate2_bp, years)->Ok_0.denominator == a2);
    assert(n * a1 < n * a2) by (nonlinear_arith)
        requires n > 0, a2 > a1;
}

/// The contribution is linear in the target: scaling the target scales the
/// quotient's numerator and leaves its denominator alone.
pub proof fn law_required_linear_in_target(target: u64, k: u64, annual_rate_bp: u32, years: u32)
    requires
        target * k <= u64::MAX,
    ensures
        required_result((target * k) as u64, annual_rate_bp, years) is Ok <==> required_result(
            target,
            annual_rate_bp,
            years,
        ) is Ok,
        required_result(target, annual_rate_bp, years) is Ok ==> required_result(
            (target * k) as u64,
            annual_rate_bp,
            years,
        )->Ok_0.numerator == k * required_result(target, annual_rate_bp, years)->Ok_0.numerator
            && required_result((target * k) as u64, annual_rate_bp, years)->Ok_0.denominator
            == required_result(target, annual_rate_bp, years)->Ok_0.denominator,
{
    assert(target * k * FIXED_ONE == k * (target * FIXED_ONE)) by (nonlinear_arith);
    assert(target * k * FIXED_ONE <= 0xffff_ffff_ffff_ffff * 1_000_000_000_000) by (nonlinear_arith)
        requires target * k <= 0xffff_ffff_ffff_ffff;
    assert(target * FIXED_ONE <= 0xffff_ffff_ffff_ffff * 1_000_000_000_000) by (nonlinear_arith)
        requires target <= 0xffff_ffff_ffff_ffff;
}

/// A positive target asks for a positive contribution.
pub proof fn law_required_positive(target: u64, annual_rate_bp: u32, years: u32)
    requires
        target > 0,
        required_result(target, annual_rate_bp, years) is Ok,
    ensures
        required_result(target, annual_rate_bp, years)->Ok_0.numerator > 0,
        required_result(target, annual_rate_bp, years)->Ok_0.denominator > 0,
{
    lemma_annuity_grows(annual_rate_bp as int, 0, 12 * years as nat);
    assert(target * FIXED_ONE <= 0xffff_ffff_ffff_ffff * 1_000_000_000_000) by (nonlinear_arith)
        requires target <= 0xffff_ffff_ffff_ffff;
}

/// With a positive contribution and rate, each month's interest adds at least
/// a trillionth of a yen.
pub proof fn lemma_balance_strictly_gains(cs: int, rate_bp: int, m: nat)
    requires
        cs >= MONTHLY_RATE_DENOM,
        rate_bp >= 1,
    ensures
        balance_after(cs, rate_bp, m) >= m * cs + m,
    decreases m,
{
    if m > 0 {
        let prev = (m - 1) as nat;
        lemma_balance_strictly_gains(cs, rate_bp, prev);
        let x = balance_after(cs, rate_bp, prev) + cs;
        lemma_accrue_strict_in_rate(x, 0, rate_bp);
        assert(accrue(x, 0) == x) by {
            vstd::arithmetic::div_mod::lemma_div_by_multiple(x, MONTHLY_RATE_DENOM as int);
        }
        assert(m * cs + m == prev * cs + prev + cs + 1) by (nonlinear_arith)
            requires prev == m - 1;
    } else {
        assert(m * cs == 0) by (nonlinear_arith)
            requires m == 0;
    }
}

/// With a positive contribution and rate, every year-end balance that `simulate`
/// reports is strictly above the contributions paid in by then.
pub proof fn law_balance_above_principal(
    monthly_contribution: u64,
    annual_rate_bp: u32,
    years: u32,
    i: int,
)
    requires
        monthly_contribution > 0,
        annual_rate_bp > 0,
        0 <= i < years,
    ensures
        year_end_balances(monthly_contribution as int, annual_rate_bp as int, years as nat)[i]
            > monthly_contribution * SIM_UNIT * 12 * (i + 1),
{
    let cs = monthly_contribution * SIM_UNIT;
    let m = (12 * (i + 1)) as nat;
    assert(cs >= MONTHLY_RATE_DENOM) by (nonlinear_arith)
        requires monthly_contribution >= 1, cs == monthly_contribution * 1_000_000_000_000;
    lemma_balance_strictly_gains(cs, annual_rate_bp as int, m);
    assert(m * cs == cs * 12 * (i + 1)) by (nonlinear_arith)
        requires m == 12 * (i + 1);
}


/// Each month's fixed-point power of the growth factor `g / d`, with
/// `g = MONTHLY_RATE_DENOM + rate_bp` and `d = MONTHLY_RATE_DENOM`, lies between
/// the exact power `FIXED_ONE * (g / d)^k` and that power less `k` parts in
/// `FIXED_ONE`: rounding down loses less than one unit a month.
pub proof fn lemma_growth_power_close(rate_bp: int, k: nat)
    requires
        rate_bp >= 0,
    ensures
        growth_power(rate_bp, k) * pow(MONTHLY_RATE_DENOM as int, k) <= FIXED_ONE * pow(
            MONTHLY_RATE_DENOM + rate_bp,
            k,
        ),
        growth_power(rate_bp, k) * pow(MONTHLY_RATE_DENOM as int, k) >= (FIXED_ONE - k) * pow(
            MONTHLY_RATE_DENOM + rate_bp,
            k,
        ),
        0 < pow(MONTHLY_RATE_DENOM as int, k) <= pow(MONTHLY_RATE_DENOM + rate_bp, k),
    decreases k,
{
    let d = MONTHLY_RATE_DENOM as int;
    let g = d + rate_bp;
    let s = FIXED_ONE as int;
    reveal(pow);
    if k == 0 {
        assert(pow(d, 0) == 1 && pow(g, 0) == 1);
    } else {
        let j = (k - 1) as nat;
        lemma_growth_power_close(rate_bp, j);
        lemma_growth_power_at_least_one(rate_bp, j);
        let p = growth_power(rate_bp, j);
        let q = growth_power(rate_bp, k);
        let dj = pow(d, j);
        let gj = pow(g, j);
        assert(pow(d, k) == d * dj);
        assert(pow(g, k) == g * gj);
        assert(q == (p * g) / d);
        vstd::arithmetic::div_mod::lemma_fundamental_div_mod(p * g, d);
        vstd::arithmetic::div_mod::lemma_mod_bound(p * g, d);
        let m = (p * g) % d;
        assert(q * (d * dj) == p * g * dj - m * dj) by (nonlinear_arith)
            requires p * g == d * q + m;
        assert(p * g * dj == g * (p * dj)) by (nonlinear_arith);
        assert(g * (p * dj) <= g * (s * gj)) by (nonlinear_arith)
            requires p * dj <= s * gj, g >= 0;
        assert(m * dj >= 0 && m * dj <= d * dj) by (nonlinear_arith)
            requires 0 <= m < d, dj > 0;
        assert(g * (p * dj) >= g * ((s - j) * gj)) by (nonlinear_arith)
            requires p * dj >= (s - j) * gj, g >= 0;
        assert(g * ((s - j) * gj) - g * gj == (s - k) * (g * gj)) by (nonlinear_arith)
            requires j == k - 1;
        assert(d * dj <= g * gj) by (nonlinear_arith)
            requires 0 < d <= g, 0 < dj <= gj;
        assert(d * dj > 0) by (nonlinear_arith)
            requires d > 0, dj > 0;
        assert(g * (s * gj) == s * (g * gj)) by (nonlinear_arith);
    }
}


/// The exact annuity factor `FIXED_ONE * ((1 + r)^n - 1) / r` scaled by
/// `MONTHLY_RATE_DENOM^n` so that it is an integer: the sum, for `k` below `n`,
/// of `FIXED_ONE * g^k * d^(n - k)`, with `g = MONTHLY_RATE_DENOM + rate_bp` and
/// `d = MONTHLY_RATE_DENOM`.
pub open spec fn closed_form_annuity(rate_bp: int, n: nat) -> int
    decreases n,
{
    if n == 0 {
        0
    } else {
        let j = (n - 1) as nat;
        MONTHLY_RATE_DENOM * closed_form_annuity(rate_bp, j) + FIXED_ONE * pow(
            MONTHLY_RATE_DENOM + rate_bp,
            j,
        ) * MONTHLY_RATE_DENOM
    }
}

/// The fixed-point annuity factor lies between the exact factor and the exact
/// factor less `n` parts in `FIXED_ONE`, both scaled by `MONTHLY_RATE_DENOM^n`.
pub proof fn lemma_annuity_close(rate_bp: int, n: nat)
    requires
        rate_bp >= 0,
    ensures
        annuity_factor(rate_bp, n) * pow(MONTHLY_RATE_DENOM as int, n) <= closed_form_annuity(
            rate_bp,
            n,
        ),
        FIXED_ONE * (annuity_factor(rate_bp, n) * pow(MONTHLY_RATE_DENOM as int, n)) >= (
        FIXED_ONE - n) * closed_form_annuity(rate_bp, n),
        closed_form_annuity(rate_bp, n) >= 0,
    decreases n,
{
    let d = MONTHLY_RATE_DENOM as int;
    let g = d + rate_bp;
    let s = FIXED_ONE as int;
    reveal(pow);
    if n == 0 {
        assert(pow(d, 0) == 1);
    } else {
        let j = (n - 1) as nat;
        lemma_annuity_close(rate_bp, j);
        lemma_growth_power_close(rate_bp, j);
        let a = annuity_factor(rate_bp, j);
        let p = growth_power(rate_bp, j);
        let dj = pow(d, j);
        let gj = pow(g, j);
        let y = closed_form_annuity(rate_bp, j);
        assert(pow(d, n) == d * dj);
        let lhs = (a + p) * (d * dj);
        assert(lhs == d * (a * dj) + d * (p * dj)) by (nonlinear_arith)
            requires lhs == (a + p) * (d * dj);
        assert(d * (a * dj) <= d * y) by (nonlinear_arith)
            requires a * dj <= y, d > 0;
        assert(d * (p * dj) <= s * gj * d) by (nonlinear_arith)
            requires p * dj <= s * gj, d > 0;
        assert(gj >= 0) by (nonlinear_arith)
            requires gj >= dj, dj > 0;
        assert(s * gj * d >= 0) by (nonlinear_arith)
            requires gj >= 0, d > 0, s > 0;
        assert(s * (d * (a * dj)) >= d * ((s - j) * y)) by (nonlinear_arith)
            requires s * (a * dj) >= (s - j) * y, d > 0;
        assert(d * ((s - j) * y) >= d * ((s - n) * y)) by (nonlinear_arith)
            requires y >= 0, d > 0, j == n - 1;
        assert(s * (d * (p * dj)) >= (s - n) * (s * gj * d)) by (nonlinear_arith)
            requires p * dj >= (s - j) * gj, d > 0, s > 0, gj >= 0, j == n - 1;
        assert(s * lhs == s * (d * (a * dj)) + s * (d * (p * dj))) by (nonlinear_arith)
            requires lhs == d * (a * dj) + d * (p * dj);
        assert((s - n) * (d * y + s * gj * d) == d * ((s - n) * y) + (s - n) * (s * gj * d))
            by (nonlinear_arith);
        assert(d * y >= 0) by (nonlinear_arith)
            requires y >= 0, d > 0;
    }
}

/// The contribution `required_monthly` gives is never below the closed form
/// `target / (((1 + r)^n - 1) / r)` and exceeds it by at most a factor of
/// `FIXED_ONE / (FIXED_ONE - n)`, with `n` the number of months: stated over the
/// quotient's denominator, the fixed-point annuity factor, against the exact
/// factor scaled by `MONTHLY_RATE_DENOM^n`.
pub proof fn law_required_close_to_closed_form(target: u64, annual_rate_bp: u32, years: u32)
    requires
        required_result(target, annual_rate_bp, years) is Ok,
    ensures
        required_result(target, annual_rate_bp, years)->Ok_0.denominator * pow(
            MONTHLY_RATE_DENOM as int,
            12 * years as nat,
        ) <= closed_form_annuity(annual_rate_bp as int, 12 * years as nat),
        FIXED_ONE * (required_result(target, annual_rate_bp, years)->Ok_0.denominator * pow(
            MONTHLY_RATE_DENOM as int,
            12 * years as nat,
        )) >= (FIXED_ONE - 12 * years) * closed_form_annuity(
            annual_rate_bp as int,
            12 * years as nat,
        ),
{
    lemma_annuity_close(annual_rate_bp as int, 12 * years as nat);
    lemma_annuity_grows(annual_rate_bp as int, 0, 12 * years as nat);
}


/// The exact balance after `m` months of contributing `cs` (in trillionths of a
/// yen), `cs * ((1 + r)^(m + 1) - (1 + r)) / r`, scaled by `MONTHLY_RATE_DENOM^m`
/// so that it is an integer.
pub open spec fn closed_form_balance(cs: int, rate_bp: int, m: nat) -> int
    decreases m,
{
    if m == 0 {
        0
    } else {
        let j = (m - 1) as nat;
        (closed_form_balance(cs, rate_bp, j) + cs * pow(MONTHLY_RATE_DENOM as int, j)) * (
        MONTHLY_RATE_DENOM + rate_bp)
    }
}

/// The simulated balance lies between the exact balance and the exact balance
/// less `m * (1 + r)^m` trillionths of a yen, both scaled by
/// `MONTHLY_RATE_DENOM^m`: rounding down loses less than a trillionth of a yen a
/// month, grown by the interest that follows.
pub proof fn lemma_balance_close(cs: int, rate_bp: int, m: nat)
    requires
        cs >= 0,
        rate_bp >= 0,
    ensures
        balance_after(cs, rate_bp, m) * pow(MONTHLY_RATE_DENOM as int, m) <= closed_form_balance(
            cs,
            rate_bp,
            m,
        ),
        balance_after(cs, rate_bp, m) * pow(MONTHLY_RATE_DENOM as int, m) >= closed_form_balance(
            cs,
            rate_bp,
            m,
        ) - m * pow(MONTHLY_RATE_DENOM + rate_bp, m),
        0 < pow(MONTHLY_RATE_DENOM as int, m) <= pow(MONTHLY_RATE_DENOM + rate_bp, m),
    decreases m,
{
    let d = MONTHLY_RATE_DENOM as int;
    let g = d + rate_bp;
    reveal(pow);
    if m == 0 {
        assert(pow(d, 0) == 1 && pow(g, 0) == 1);
    } else {
        let j = (m - 1) as nat;
        lemma_balance_close(cs, rate_bp, j);
        lemma_balance_nonneg(cs, rate_bp, j);
        let b = balance_after(cs, rate_bp, j);
        let x = b + cs;
        let q = balance_after(cs, rate_bp, m);
        let dj = pow(d, j);
        let gj = pow(g, j);
        let z = closed_form_balance(cs, rate_bp, j);
        assert(pow(d, m) == d * dj);
        assert(pow(g, m) == g * gj);
        assert(q == (x * g) / d);
        vstd::arithmetic::div_mod::lemma_fundamental_div_mod(x * g, d);
        vstd::arithmetic::div_mod::lemma_mod_bound(x * g, d);
        let r = (x * g) % d;
        assert(q * (d * dj) == g * (b * dj + cs * dj) - r * dj) by (nonlinear_arith)
            requires x * g == d * q + r, x == b + cs;
        assert(g * (b * dj + cs * dj) <= g * (z + cs * dj)) by (nonlinear_arith)
            requires b * dj <= z, g >= 0;
        assert(r * dj >= 0 && r * dj <= d * dj) by (nonlinear_arith)
            requires 0 <= r < d, dj > 0;
        assert(g * (b * dj + cs * dj) >= g * (z + cs * dj) - g * (j * gj)) by (nonlinear_arith)
            requires b * dj >= z - j * gj, g >= 0;
        assert(g * (j * gj) + g * gj == m * (g * gj)) by (nonlinear_arith)
            requires j == m - 1;
        assert(d * dj <= g * gj) by (nonlinear_arith)
            requires 0 < d <= g, 0 < dj <= gj;
        assert(d * dj > 0) by (nonlinear_arith)
            requires d > 0, dj > 0;
        assert(g * (z + cs * dj) == (z + cs * dj) * g) by (nonlinear_arith);
    }
}

/// Every year-end balance that `simulate` reports lies within a bound of the
/// exact annuity-due value: at most the exact value, and short of it by less
/// than `m * (1 + r)^m` trillionths of a yen, with `m` the months elapsed.
pub proof fn law_balance_close_to_annuity_due(
    monthly_contribution: u64,
    annual_rate_bp: u32,
    years: u32,
    i: int,
)
    requires
        0 <= i < years,
    ensures
        year_end_balances(monthly_contribution as int, annual_rate_bp as int, years as nat)[i]
            * pow(MONTHLY_RATE_DENOM as int, (12 * (i + 1)) as nat) <= closed_form_balance(
            monthly_contribution * SIM_UNIT,
            annual_rate_bp as int,
            (12 * (i + 1)) as nat,
        ),
        year_end_balances(monthly_contribution as int, annual_rate_bp as int, years as nat)[i]
            * pow(MONTHLY_RATE_DENOM as int, (12 * (i + 1)) as nat) >= closed_form_balance(
            monthly_contribution * SIM_UNIT,
            annual_rate_bp as int,
            (12 * (i + 1)) as nat,
        ) - 12 * (i + 1) * pow(MONTHLY_RATE_DENOM + annual_rate_bp, (12 * (i + 1)) as nat),
{
    let cs = monthly_contribution * SIM_UNIT;
    assert(cs >= 0) by (nonlinear_arith)
        requires monthly_contribution >= 0, cs == monthly_contribution * 1_000_000_000_000;
    lemma_balance_close(cs, annual_rate_bp as int, (12 * (i + 1)) as nat);
}


/// The exact balance holds at least the last contribution with all its interest.
pub proof fn lemma_closed_form_balance_at_least(cs: int, rate_bp: int, m: nat)
    requires
        cs >= 0,
        rate_bp >= 0,
    ensures
        closed_form_balance(cs, rate_bp, m) >= 0,
        m >= 1 ==> closed_form_balance(cs, rate_bp, m) >= cs * pow(MONTHLY_RATE_DENOM + rate_bp, m),
    decreases m,
{
    let d = MONTHLY_RATE_DENOM as int;
    let g = d + rate_bp;
    reveal(pow);
    if m > 0 {
        let j = (m - 1) as nat;
        lemma_closed_form_balance_at_least(cs, rate_bp, j);
        lemma_balance_close(cs, rate_bp, j);
        let z = closed_form_balance(cs, rate_bp, j);
        let dj = pow(d, j);
        let gj = pow(g, j);
        assert(pow(g, m) == g * gj);
        assert(gj >= 0 && cs * dj >= 0) by (nonlinear_arith)
            requires gj >= dj, dj > 0, cs >= 0;
        if j == 0 {
            assert(gj == 1 && dj == 1);
            assert(z == 0);
        }
        assert((z + cs * dj) * g >= cs * (g * gj)) by (nonlinear_arith)
            requires
                z >= 0,
                cs * dj >= 0,
                g > 0,
                j >= 1 ==> z >= cs * gj,
                j == 0 ==> gj == 1 && dj == 1,
                cs >= 0,
        ;
        assert((z + cs * dj) * g >= 0) by (nonlinear_arith)
            requires z >= 0, cs * dj >= 0, g > 0;
    }
}

/// Relative form of the annuity-due bound: the year-end balance falls short of
/// the exact value by at most `m` parts in `monthly_contribution * SIM_UNIT`,
/// with `m` the months elapsed; for any plan of at least one yen a month over
/// up to 83 years, less than one part in a billion.
pub proof fn law_balance_relatively_close_to_annuity_due(
    monthly_contribution: u64,
    annual_rate_bp: u32,
    years: u32,
    i: int,
)
    requires
        0 <= i < years,
    ensures
        (monthly_contribution * SIM_UNIT) * (year_end_balances(
            monthly_contribution as int,
            annual_rate_bp as int,
            years as nat,
        )[i] * pow(MONTHLY_RATE_DENOM as int, (12 * (i + 1)) as nat)) >= (monthly_contribution
            * SIM_UNIT - 12 * (i + 1)) * closed_form_balance(
            monthly_contribution * SIM_UNIT,
            annual_rate_bp as int,
            (12 * (i + 1)) as nat,
        ),
{
    let cs = monthly_contribution * SIM_UNIT;
    let m = (12 * (i + 1)) as nat;
    assert(cs >= 0) by (nonlinear_arith)
        requires monthly_contribution >= 0, cs == monthly_contribution * 1_000_000_000_000;
    lemma_balance_close(cs, annual_rate_bp as int, m);
    lemma_closed_form_balance_at_least(cs, annual_rate_bp as int, m);
    let b = year_end_balances(monthly_contribution as int, annual_rate_bp as int, years as nat)[i];
    let e = b * pow(MONTHLY_RATE_DENOM as int, m);
    let z = closed_form_balance(cs, annual_rate_bp as int, m);
    let gm = pow(MONTHLY_RATE_DENOM + annual_rate_bp, m);
    assert(cs * e >= (cs - m) * z) by (nonlinear_arith)
        requires e >= z - m * gm, z >= cs * gm, cs >= 0, m >= 1, gm >= 0;
}

} // verus!
