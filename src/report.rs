use vstd::prelude::*;
use crate::error::PlanError;
use crate::format::round_div;
use crate::growth::{
    annuity_factor,
    balance_micro,
    balance_sim,
    lemma_annuity_grows,
    lemma_balance_gains,
    plan_error,
    required_monthly,
    required_result,
    simulate,
    simulation_overflows,
    Contribution,
    FIXED_ONE,
    SIM_PER_MICRO,
    SIM_UNIT,
    SUB_YEN,
};

verus! {

/// After `m` months the balance holds at least the `m` contributions.
pub proof fn lemma_balance_covers_principal(c: int, rate_bp: int, m: nat)
    requires
        c >= 0,
        rate_bp >= 0,
    ensures
        balance_micro(c, rate_bp, m) >= m * (c * SUB_YEN),
{
    let cs = c * SIM_UNIT;
    let k = m * (c * SUB_YEN);
    assert(cs >= 0 && k >= 0) by (nonlinear_arith)
        requires c >= 0, cs == c * 1_000_000_000_000, k == m * (c * 1_000_000);
    lemma_balance_gains(cs, rate_bp, 0, m);
    assert(m * cs == k * SIM_PER_MICRO) by (nonlinear_arith)
        requires cs == c * 1_000_000_000_000, k == m * (c * 1_000_000);
    vstd::arithmetic::div_mod::lemma_div_is_ordered(
        k * SIM_PER_MICRO,
        balance_sim(c, rate_bp, m),
        SIM_PER_MICRO as int,
    );
    vstd::arithmetic::div_mod::lemma_div_by_multiple(k, SIM_PER_MICRO as int);
}

/// A contribution in millionths of a yen, rounded down.
pub open spec fn micro_yen(c: Contribution) -> int {
    c.numerator * SUB_YEN / (c.denominator as int)
}

/// Over `months` months the contribution the annuity formula asks for, rounded
/// down to a millionth of a yen, adds up to no more than the target.
pub proof fn lemma_required_principal_within_target(target: u64, rate_bp: u32, months: nat)
    requires
        months > 0,
    ensures
        (target * FIXED_ONE * SUB_YEN) / annuity_factor(rate_bp as int, months) * months
            <= target * SUB_YEN,
        (target * FIXED_ONE * SUB_YEN) / annuity_factor(rate_bp as int, months) >= 0,
{
    let x = target * FIXED_ONE * SUB_YEN;
    let a = annuity_factor(rate_bp as int, months);
    lemma_annuity_grows(rate_bp as int, 0, months);
    let r = x / a;
    vstd::arithmetic::div_mod::lemma_fundamental_div_mod(x, a);
    vstd::arithmetic::div_mod::lemma_mod_bound(x, a);
    vstd::arithmetic::div_mod::lemma_div_pos_is_pos(x, a);
    assert(r * months <= target * SUB_YEN) by (nonlinear_arith)
        requires
            x == target * 1_000_000_000_000 * 1_000_000,
            x == a * r + x % a,
            0 <= x % a,
            a >= months * 1_000_000_000_000,
            r >= 0,
    ;
}

/// One row of the table of contributions needed to reach the target. Amounts
/// are in millionths of a yen.
#[derive(Debug, Clone, Copy, PartialEq, Eq, Structural)]
pub struct RequiredRow {
    pub years: u32,
    /// Monthly contribution the annuity formula asks for, rounded down.
    pub monthly: u128,
    /// That monthly contribution times the number of months.
    pub principal: u128,
    /// Target less principal: what compounding adds.
    pub profit: u128,
    /// Whether the current monthly contribution is enough, by the exact quotient.
    pub achievable: bool,
}

/// What `required_row` returns.
pub open spec fn required_row_result(target: u64, rate_bp: u32, current_monthly: u64, years: u32) -> Result<
    RequiredRow,
    PlanError,
> {
    match required_result(target, rate_bp, years) {
        Err(e) => Err(e),
        Ok(c) => {
            let m = micro_yen(c);
            Ok(
                RequiredRow {
                    years,
                    monthly: m as u128,
                    principal: (m * 12 * years) as u128,
                    profit: (target * SUB_YEN - m * 12 * years) as u128,
                    achievable: c.numerator <= current_monthly * c.denominator,
                },
            )
        },
    }
}

/// The contribution needed to reach `target` in `years` years, with the principal
/// it adds up to, the profit that compounding brings on top, and whether
/// `current_monthly` already suffices.
pub fn required_row(target: u64, annual_rate_bp: u32, current_monthly: u64, years: u32) -> (r:
    Result<RequiredRow, PlanError>)
    ensures
        r == required_row_result(target, annual_rate_bp, current_monthly, years),
{
    let c = match required_monthly(target, annual_rate_bp, years) {
        Ok(c) => c,
        Err(e) => {
            return Err(e);
        },
    };
    let months: u128 = years as u128 * 12;
    proof {
        lemma_required_principal_within_target(target, annual_rate_bp, months as nat);
        lemma_annuity_grows(annual_rate_bp as int, 0, months as nat);
    }
    assert(target * 1_000_000_000_000 <= 0x100_0000_0000_0000_0000_0000_0000) by (nonlinear_arith)
        requires target <= 0xffff_ffff_ffff_ffff;
    assert(c.numerator * SUB_YEN <= 0x100_0000_0000_0000_0000_0000_0000 * 1_000_000) by (nonlinear_arith)
        requires c.numerator <= 0x100_0000_0000_0000_0000_0000_0000;
    let monthly: u128 = c.numerator * SUB_YEN as u128 / c.denominator;
    proof {
        assert(monthly * months <= target * SUB_YEN);
        assert(monthly * months == monthly * 12 * years) by (nonlinear_arith)
            requires months == years * 12;
    }
    let whole: u128 = c.numerator / c.denominator;
    let achievable = whole < current_monthly as u128 || (whole == current_monthly as u128
        && c.numerator % c.denominator == 0);
    proof {
        let n = c.numerator as int;
        let d = c.denominator as int;
        let q = whole as int;
        let cur = current_monthly as int;
        vstd::arithmetic::div_mod::lemma_fundamental_div_mod(n, d);
        vstd::arithmetic::div_mod::lemma_mod_bound(n, d);
        assert(achievable == (n <= cur * d)) by (nonlinear_arith)
            requires
                n == d * q + n % d,
                0 <= n % d < d,
                achievable == (q < cur || (q == cur && n % d == 0)),
        ;
    }
    let principal: u128 = monthly * months;
    let target_micro: u128 = target as u128 * SUB_YEN as u128;
    Ok(
        RequiredRow {
            years,
            monthly,
            principal,
            profit: target_micro - principal,
            achievable,
        },
    )
}

/// One row of the table of where the current contribution leads. Amounts are in
/// millionths of a yen.
#[derive(Debug, Clone, Copy, PartialEq, Eq, Structural)]
pub struct ProjectionRow {
    pub years: u32,
    /// Balance at the end of the horizon.
    pub final_balance: u128,
    /// Sum of all contributions.
    pub principal: u128,
    /// Final balance less principal.
    pub profit: u128,
}

/// What `projection_row` returns.
pub open spec fn projection_row_result(monthly_contribution: u64, rate_bp: u32, years: u32) -> Result<
    ProjectionRow,
    PlanError,
> {
    match plan_error(
        rate_bp as int,
        years as int,
        simulation_overflows(monthly_contribution as int, rate_bp as int, years as nat),
    ) {
        Some(e) => Err(e),
        None => {
            let b = balance_micro(monthly_contribution as int, rate_bp as int, 12 * years as nat);
            let p = monthly_contribution * SUB_YEN * 12 * years;
            Ok(
                ProjectionRow {
                    years,
                    final_balance: b as u128,
                    principal: p as u128,
                    profit: (b - p) as u128,
                },
            )
        },
    }
}

/// Where `monthly_contribution` leads after `years` years: the final balance,
/// the principal paid in and the profit.
pub fn projection_row(monthly_contribution: u64, annual_rate_bp: u32, years: u32) -> (r: Result<
    ProjectionRow,
    PlanError,
>)
    ensures
        r == projection_row_result(monthly_contribution, annual_rate_bp, years),
{
    let yearly = match simulate(monthly_contribution, annual_rate_bp, years) {
        Ok(v) => v,
        Err(e) => {
            return Err(e);
        },
    };
    let ghost c = monthly_contribution as int;
    let ghost rate = annual_rate_bp as int;
    let months: u128 = years as u128 * 12;
    assert(yearly@.map_values(|b: u128| b as int).len() == yearly@.len());
    let last = yearly[yearly.len() - 1];
    let final_balance = last / SIM_PER_MICRO as u128;
    proof {
        assert(yearly@.map_values(|b: u128| b as int)[years - 1] == last as int);
        assert(months == 12 * ((years - 1) + 1));
        assert(last == balance_sim(c, rate, months as nat));
        assert(final_balance == balance_micro(c, rate, months as nat));
        lemma_balance_covers_principal(c, rate, months as nat);
        assert(months * (c * SUB_YEN) == c * SUB_YEN * 12 * years) by (nonlinear_arith)
            requires months == years * 12;
        assert(c * SUB_YEN * months == months * (c * SUB_YEN)) by (nonlinear_arith);
    }
    let principal: u128 = monthly_contribution as u128 * SUB_YEN as u128 * months;
    Ok(ProjectionRow { years, final_balance, principal, profit: final_balance - principal })
}

/// `profit` as a percentage of `principal`, rounded to the nearest whole
/// percent, halves up; `None` when nothing was paid in, or when `profit` is too
/// large to be scaled by a hundred.
pub fn profit_percent(profit: u128, principal: u128) -> (r: Option<u128>)
    ensures
        principal == 0 || profit > u128::MAX / 100 ==> r is None,
        principal > 0 && profit <= u128::MAX / 100 ==> r == Some(
            round_div(profit as nat * 100, principal as nat) as u128,
        ),
{
    if principal == 0 || profit > u128::MAX / 100 {
        return None;
    }
    let scaled: u128 = profit * 100;
    let q: u128 = scaled / principal;
    let rem: u128 = scaled % principal;
    proof {
        vstd::arithmetic::div_mod::lemma_div_is_ordered_by_denominator(
            scaled as int,
            1,
            principal as int,
        );
    }
    if rem >= principal - rem {
        Some(q + 1)
    } else {
        Some(q)
    }
}

/// One year of the trajectory table. Amounts are in millionths of a yen.
#[derive(Debug, Clone, Copy, PartialEq, Eq, Structural)]
pub struct TrajectoryRow {
    pub year: u32,
    pub balance: u128,
    /// Contributions paid in up to that year.
    pub principal: u128,
    pub profit: u128,
    /// Whether the balance has reached the target.
    pub reached: bool,
}

/// The trajectory row for the end of `year`.
pub open spec fn trajectory_row_at(c: u64, rate_bp: u32, target: u64, year: nat) -> TrajectoryRow {
    let b = balance_micro(c as int, rate_bp as int, 12 * year);
    let p = c * SUB_YEN * 12 * year;
    TrajectoryRow {
        year: year as u32,
        balance: b as u128,
        principal: p as u128,
        profit: (b - p) as u128,
        reached: b >= target * SUB_YEN,
    }
}

/// A year is shown when it is a multiple of five, when the target has been
/// reached, or when it ends the horizon.
pub open spec fn year_shown(row: TrajectoryRow, last_year: nat) -> bool {
    row.year % 5 == 0 || row.reached || row.year == last_year
}

/// The rows shown for the first `k` years of a horizon of `last_year` years.
pub open spec fn trajectory_rows(c: u64, rate_bp: u32, target: u64, last_year: nat, k: nat) -> Seq<
    TrajectoryRow,
>
    decreases k,
{
    if k == 0 {
        Seq::empty()
    } else {
        let earlier = trajectory_rows(c, rate_bp, target, last_year, (k - 1) as nat);
        let row = trajectory_row_at(c, rate_bp, target, k);
        if year_shown(row, last_year) {
            earlier.push(row)
        } else {
            earlier
        }
    }
}

/// The year-by-year trajectory of `monthly_contribution` over `years` years,
/// keeping the years that `year_shown` selects.
pub fn trajectory(monthly_contribution: u64, annual_rate_bp: u32, target: u64, years: u32) -> (r:
    Result<Vec<TrajectoryRow>, PlanError>)
    ensures
        match plan_error(
            annual_rate_bp as int,
            years as int,
            simulation_overflows(monthly_contribution as int, annual_rate_bp as int, years as nat),
        ) {
            Some(e) => r == Err::<Vec<TrajectoryRow>, PlanError>(e),
            None => r is Ok && r->Ok_0@ == trajectory_rows(
                monthly_contribution,
                annual_rate_bp,
                target,
                years as nat,
                years as nat,
            ),
        },
{
    let yearly = match simulate(monthly_contribution, annual_rate_bp, years) {
        Ok(v) => v,
        Err(e) => {
            return Err(e);
        },
    };
    let ghost c = monthly_contribution as int;
    let ghost rate = annual_rate_bp as int;
    let ghost balances = yearly@.map_values(|b: u128| b as int);
    assert(balances.len() == yearly@.len());
    let mut rows: Vec<TrajectoryRow> = Vec::new();
    let mut i: usize = 0;
    while i < yearly.len()
        invariant
            c == monthly_contribution,
            rate == annual_rate_bp,
            balances == yearly@.map_values(|b: u128| b as int),
            balances == crate::growth::year_end_balances(c, rate, years as nat),
            yearly@.len() == years,
            i <= years,
            rows@ == trajectory_rows(
                monthly_contribution,
                annual_rate_bp,
                target,
                years as nat,
                i as nat,
            ),
        decreases years - i,
    {
        let year: u32 = (i + 1) as u32;
        let balance = yearly[i] / SIM_PER_MICRO as u128;
        let months: u128 = year as u128 * 12;
        proof {
            assert(balances[i as int] == yearly@[i as int] as int);
            assert(balances[i as int] == balance_sim(c, rate, (12 * (i + 1)) as nat));
            assert(months == 12 * (i + 1));
            assert(balance == balance_micro(c, rate, months as nat));
            lemma_balance_covers_principal(c, rate, months as nat);
            assert(months * (c * SUB_YEN) == c * SUB_YEN * 12 * year) by (nonlinear_arith)
                requires months == year * 12;
            assert(c * SUB_YEN * months == months * (c * SUB_YEN)) by (nonlinear_arith);
        }
        let principal: u128 = monthly_contribution as u128 * SUB_YEN as u128 * months;
        let row = TrajectoryRow {
            year,
            balance,
            principal,
            profit: balance - principal,
            reached: balance >= target as u128 * SUB_YEN as u128,
        };
        assert(row == trajectory_row_at(monthly_contribution, annual_rate_bp, target, year as nat));
        if year % 5 == 0 || row.reached || year == years {
            rows.push(row);
        }
        i = i + 1;
    }
    Ok(rows)
}

/// How the plan ends. Amounts are in millionths of a yen.
#[derive(Debug, Clone, Copy, PartialEq, Eq, Structural)]
pub enum Outlook {
    /// The final balance reaches the target.
    Reached { final_balance: u128 },
    /// The final balance falls short by `shortfall`; the annuity formula asks for
    /// `additional_monthly` more each month (zero when it asks for no more than is
    /// paid already).
    Short { final_balance: u128, shortfall: u128, additional_monthly: u128 },
}

/// What `outlook` returns.
pub open spec fn outlook_result(target: u64, rate_bp: u32, current_monthly: u64, years: u32) -> Result<
    Outlook,
    PlanError,
> {
    match plan_error(
        rate_bp as int,
        years as int,
        simulation_overflows(current_monthly as int, rate_bp as int, years as nat),
    ) {
        Some(e) => Err(e),
        None => {
            let b = balance_micro(current_monthly as int, rate_bp as int, 12 * years as nat);
            if b >= target * SUB_YEN {
                Ok(Outlook::Reached { final_balance: b as u128 })
            } else {
                match required_result(target, rate_bp, years) {
                    Err(e) => Err(e),
                    Ok(c) => {
                        let m = micro_yen(c);
                        let paid = current_monthly * SUB_YEN;
                        Ok(
                            Outlook::Short {
                                final_balance: b as u128,
                                shortfall: (target * SUB_YEN - b) as u128,
                                additional_monthly: if m > paid {
                                    (m - paid) as u128
                                } else {
                                    0
                                },
                            },
                        )
                    },
                }
            }
        },
    }
}

/// Whether paying `current_monthly` for `years` years reaches `target`, and if
/// not, by how much it falls short and how much more a month the annuity
/// formula asks for.
pub fn outlook(target: u64, annual_rate_bp: u32, current_monthly: u64, years: u32) -> (r: Result<
    Outlook,
    PlanError,
>)
    ensures
        r == outlook_result(target, annual_rate_bp, current_monthly, years),
{
    let row = match projection_row(current_monthly, annual_rate_bp, years) {
        Ok(row) => row,
        Err(e) => {
            return Err(e);
        },
    };
    let final_balance = row.final_balance;
    let ghost b = balance_micro(current_monthly as int, annual_rate_bp as int, 12 * years as nat);
    proof {
        lemma_balance_covers_principal(current_monthly as int, annual_rate_bp as int, 12 * years as nat);
        assert((12 * years as nat) * (current_monthly * SUB_YEN) >= 0) by (nonlinear_arith)
            requires current_monthly >= 0;
    }
    assert(row == projection_row_result(current_monthly, annual_rate_bp, years)->Ok_0);
    assert(final_balance == b);
    let target_micro: u128 = target as u128 * SUB_YEN as u128;
    if final_balance >= target_micro {
        return Ok(Outlook::Reached { final_balance });
    }
    let c = match required_monthly(target, annual_rate_bp, years) {
        Ok(c) => c,
        Err(e) => {
            return Err(e);
        },
    };
    assert(target * 1_000_000_000_000 <= 0x100_0000_0000_0000_0000_0000_0000) by (nonlinear_arith)
        requires target <= 0xffff_ffff_ffff_ffff;
    assert(c.numerator * SUB_YEN <= 0x100_0000_0000_0000_0000_0000_0000 * 1_000_000) by (nonlinear_arith)
        requires c.numerator <= 0x100_0000_0000_0000_0000_0000_0000;
    proof {
        lemma_annuity_grows(annual_rate_bp as int, 0, 12 * years as nat);
    }
    let needed: u128 = c.numerator * SUB_YEN as u128 / c.denominator;
    let paid: u128 = current_monthly as u128 * SUB_YEN as u128;
    let additional_monthly = if needed > paid {
        needed - paid
    } else {
        0
    };
    Ok(Outlook::Short { final_balance, shortfall: target_micro - final_balance, additional_monthly })
}

/// The first row whose contribution is already met, if any.
pub fn first_achievable(rows: &Vec<RequiredRow>) -> (r: Option<u32>)
    ensures
        r is None <==> forall|i: int| 0 <= i < rows@.len() ==> !rows@[i].achievable,
        r is Some ==> exists|i: int|
            0 <= i < rows@.len() && rows@[i].achievable && rows@[i].years == r->0 && forall|j: int|
                0 <= j < i ==> !rows@[j].achievable,
{
    let mut i: usize = 0;
    while i < rows.len()
        invariant
            i <= rows@.len(),
            forall|j: int| 0 <= j < i ==> !rows@[j].achievable,
        decreases rows@.len() - i,
    {
        if rows[i].achievable {
            return Some(rows[i].years);
        }
        i = i + 1;
    }
    None
}

pub const STANDARD_TARGET: u64 = 100_000_000;

pub const STANDARD_RATE_BP: u32 = 500;

pub const STANDARD_MONTHLY: u64 = 50_000;

pub const STANDARD_TRAJECTORY_YEARS: u32 = 30;

/// The figures a report is drawn from.
pub struct Scenario {
    /// Net worth aimed at, in yen.
    pub target: u64,
    /// Annual rate in basis points.
    pub annual_rate_bp: u32,
    /// What is paid in each month now, in yen.
    pub current_monthly: u64,
    /// Horizons, in years, of the two tables.
    pub horizons: Vec<u32>,
    /// Horizon of the year-by-year trajectory.
    pub trajectory_years: u32,
}

impl Scenario {
    /// A target of 100,000,000 yen at 5% a year with 50,000 yen a month now,
    /// over horizons of 10, 15, 20, 25 and 30 years.
    pub fn standard() -> (s: Scenario)
        ensures
            s.target == STANDARD_TARGET,
            s.annual_rate_bp == STANDARD_RATE_BP,
            s.current_monthly == STANDARD_MONTHLY,
            s.horizons@ == seq![10u32, 15, 20, 25, 30],
            s.trajectory_years == STANDARD_TRAJECTORY_YEARS,
    {
        let horizons: Vec<u32> = vec![10, 15, 20, 25, 30];
        assert(horizons@ =~= seq![10u32, 15, 20, 25, 30]);
        Scenario {
            target: STANDARD_TARGET,
            annual_rate_bp: STANDARD_RATE_BP,
            current_monthly: STANDARD_MONTHLY,
            horizons,
            trajectory_years: STANDARD_TRAJECTORY_YEARS,
        }
    }

    /// For each horizon, the contribution needed to reach the target; the
    /// first horizon that fails gives the error.
    pub fn required_table(&self) -> (r: Result<Vec<RequiredRow>, PlanError>)
        ensures
            r is Ok <==> forall|i: int|
                0 <= i < self.horizons@.len() ==> required_row_result(
                    self.target,
                    self.annual_rate_bp,
                    self.current_monthly,
                    self.horizons@[i],
                ) is Ok,
            r is Ok ==> r->Ok_0@.len() == self.horizons@.len() && forall|i: int|
                0 <= i < self.horizons@.len() ==> Ok::<RequiredRow, PlanError>(r->Ok_0@[i])
                    == required_row_result(
                    self.target,
                    self.annual_rate_bp,
                    self.current_monthly,
                    self.horizons@[i],
                ),
            r is Err ==> exists|i: int|
                0 <= i < self.horizons@.len() && Err::<RequiredRow, PlanError>(r->Err_0)
                    == required_row_result(
                    self.target,
                    self.annual_rate_bp,
                    self.current_monthly,
                    self.horizons@[i],
                ) && forall|j: int|
                    0 <= j < i ==> #[trigger] required_row_result(
                        self.target,
                        self.annual_rate_bp,
                        self.current_monthly,
                        self.horizons@[j],
                    ) is Ok,
    {
        let mut rows: Vec<RequiredRow> = Vec::new();
        let mut i: usize = 0;
        while i < self.horizons.len()
            invariant
                i <= self.horizons@.len(),
                rows@.len() == i,
                forall|j: int|
                    0 <= j < i ==> Ok::<RequiredRow, PlanError>(rows@[j]) == required_row_result(
                        self.target,
                        self.annual_rate_bp,
                        self.current_monthly,
                        self.horizons@[j],
                    ),
            decreases self.horizons@.len() - i,
        {
            let years = self.horizons[i];
            match required_row(self.target, self.annual_rate_bp, self.current_monthly, years) {
                Ok(row) => rows.push(row),
                Err(e) => {
                    assert forall|j: int| 0 <= j < i implies required_row_result(
                        self.target,
                        self.annual_rate_bp,
                        self.current_monthly,
                        self.horizons@[j],
                    ) is Ok by {
                        assert(Ok::<RequiredRow, PlanError>(rows@[j]) == required_row_result(
                            self.target,
                            self.annual_rate_bp,
                            self.current_monthly,
                            self.horizons@[j],
                        ));
                    }
                    return Err(e);
                },
            }
            i = i + 1;
        }
        assert forall|j: int| 0 <= j < self.horizons@.len() implies required_row_result(
            self.target, self.annual_rate_bp, self.current_monthly,
            self.horizons@[j],
        ) is Ok by {
            assert(Ok::<RequiredRow, PlanError>(rows@[j]) == required_row_result(
                self.target, self.annual_rate_bp, self.current_monthly,
                self.horizons@[j],
            ));
        }
        Ok(rows)
    }

    /// For each horizon, where the current contribution leads; the first
    /// horizon that fails gives the error.
    pub fn projection_table(&self) -> (r: Result<Vec<ProjectionRow>, PlanError>)
        ensures
            r is Ok <==> forall|i: int|
                0 <= i < self.horizons@.len() ==> projection_row_result(
                    self.current_monthly,
                    self.annual_rate_bp,
                    self.horizons@[i],
                ) is Ok,
            r is Ok ==> r->Ok_0@.len() == self.horizons@.len() && forall|i: int|
                0 <= i < self.horizons@.len() ==> Ok::<ProjectionRow, PlanError>(r->Ok_0@[i])
                    == projection_row_result(
                    self.current_monthly,
                    self.annual_rate_bp,
                    self.horizons@[i],
                ),
            r is Err ==> exists|i: int|
                0 <= i < self.horizons@.len() && Err::<ProjectionRow, PlanError>(r->Err_0)
                    == projection_row_result(
                    self.current_monthly,
                    self.annual_rate_bp,
                    self.horizons@[i],
                ) && forall|j: int|
                    0 <= j < i ==> #[trigger] projection_row_result(
                        self.current_monthly,
                        self.annual_rate_bp,
                        self.horizons@[j],
                    ) is Ok,
    {
        let mut rows: Vec<ProjectionRow> = Vec::new();
        let mut i: usize = 0;
        while i < self.horizons.len()
            invariant
                i <= self.horizons@.len(),
                rows@.len() == i,
                forall|j: int|
                    0 <= j < i ==> Ok::<ProjectionRow, PlanError>(rows@[j]) == projection_row_result(
                        self.current_monthly,
                        self.annual_rate_bp,
                        self.horizons@[j],
                    ),
            decreases self.horizons@.len() - i,
        {
            let years = self.horizons[i];
            match projection_row(self.current_monthly, self.annual_rate_bp, years) {
                Ok(row) => rows.push(row),
                Err(e) => {
                    assert forall|j: int| 0 <= j < i implies projection_row_result(
                        self.current_monthly,
                        self.annual_rate_bp,
                        self.horizons@[j],
                    ) is Ok by {
                        assert(Ok::<ProjectionRow, PlanError>(rows@[j]) == projection_row_result(
                            self.current_monthly,
                            self.annual_rate_bp,
                            self.horizons@[j],
                        ));
                    }
                    return Err(e);
                },
            }
            i = i + 1;
        }
        assert forall|j: int| 0 <= j < self.horizons@.len() implies projection_row_result(
            self.current_monthly, self.annual_rate_bp,
            self.horizons@[j],
        ) is Ok by {
            assert(Ok::<ProjectionRow, PlanError>(rows@[j]) == projection_row_result(
                self.current_monthly, self.annual_rate_bp,
                self.horizons@[j],
            ));
        }
        Ok(rows)
    }

    /// The first horizon at which the current contribution meets what the
    /// annuity formula asks for.
    pub fn first_achievable_horizon(&self) -> (r: Result<Option<u32>, PlanError>)
        ensures
            r is Ok <==> forall|i: int|
                0 <= i < self.horizons@.len() ==> required_row_result(
                    self.target,
                    self.annual_rate_bp,
                    self.current_monthly,
                    self.horizons@[i],
                ) is Ok,
            r matches Ok(None) ==> forall|i: int|
                0 <= i < self.horizons@.len() ==> !required_row_result(
                    self.target,
                    self.annual_rate_bp,
                    self.current_monthly,
                    self.horizons@[i],
                )->Ok_0.achievable,
            r matches Ok(Some(y)) ==> exists|i: int|
                0 <= i < self.horizons@.len() && self.horizons@[i] == y && required_row_result(
                    self.target,
                    self.annual_rate_bp,
                    self.current_monthly,
                    self.horizons@[i],
                )->Ok_0.achievable && forall|j: int|
                    0 <= j < i ==> !required_row_result(
                        self.target,
                        self.annual_rate_bp,
                        self.current_monthly,
                        self.horizons@[j],
                    )->Ok_0.achievable,
    {
        let rows = match self.required_table() {
            Ok(rows) => rows,
            Err(e) => {
                return Err(e);
            },
        };
        Ok(first_achievable(&rows))
    }
}

} // verus!
