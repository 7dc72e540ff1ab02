use wealth_plan::error::PlanError;
use wealth_plan::growth::{required_monthly, simulate, Contribution};

fn float_required(target: f64, annual_rate: f64, years: usize) -> f64 {
    let monthly_rate = annual_rate / 12.0;
    let months = (years * 12) as i32;
    target / (((1.0 + monthly_rate).powi(months) - 1.0) / monthly_rate)
}

fn float_simulation(monthly: f64, annual_rate: f64, years: usize) -> Vec<f64> {
    let mut wealth = 0.0;
    let mut out = Vec::new();
    for month in 1..=years * 12 {
        wealth += monthly;
        wealth *= 1.0 + annual_rate / 12.0;
        if month % 12 == 0 {
            out.push(wealth);
        }
    }
    out
}

fn value(c: Contribution) -> f64 {
    c.numerator as f64 / c.denominator as f64
}

fn yen(units: u128) -> f64 {
    units as f64 / 1_000_000_000_000.0
}

#[test]
fn required_monthly_thirty_years_matches_annuity_formula() {
    let c = required_monthly(100_000_000, 500, 30).unwrap();
    assert_eq!(
        c,
        Contribution { numerator: 100_000_000 * 1_000_000_000_000, denominator: 832_258_635_305_786 }
    );
    let reference = float_required(100_000_000.0, 0.05, 30);
    assert!((value(c) - reference).abs() / reference < 1e-9);
}

#[test]
fn required_monthly_matches_formula_per_horizon() {
    for years in [1u32, 10, 15, 20, 25, 44, 45] {
        let c = required_monthly(100_000_000, 500, years).unwrap();
        let reference = float_required(100_000_000.0, 0.05, years as usize);
        assert!((value(c) - reference).abs() / reference < 1e-9);
    }
}

#[test]
fn required_monthly_of_one_yen_is_positive() {
    let c = required_monthly(1, 500, 1).unwrap();
    assert!(c.numerator > 0);
    let reference = float_required(1.0, 0.05, 1);
    assert!((value(c) - reference).abs() / reference < 1e-9);
}

#[test]
fn required_monthly_strictly_decreases_with_horizon() {
    let mut previous = required_monthly(1, 500, 1).unwrap();
    for years in 2..=40u32 {
        let c = required_monthly(1, 500, years).unwrap();
        assert!(c.numerator * previous.denominator < previous.numerator * c.denominator);
        previous = c;
    }
}

#[test]
fn required_monthly_strictly_decreases_with_rate() {
    let low = required_monthly(1, 500, 1).unwrap();
    let high = required_monthly(1, 600, 1).unwrap();
    assert!(high.numerator * low.denominator < low.numerator * high.denominator);
}

#[test]
fn required_monthly_linear_in_target() {
    let one = required_monthly(1, 500, 7).unwrap();
    let hundred = required_monthly(100, 500, 7).unwrap();
    assert_eq!(hundred.numerator, 100 * one.numerator);
    assert_eq!(hundred.denominator, one.denominator);
}

#[test]
fn required_monthly_errors() {
    assert_eq!(required_monthly(100_000_000, 500, 0), Err(PlanError::InvalidHorizon));
    assert_eq!(required_monthly(100_000_000, 0, 30), Err(PlanError::InvalidRate));
    assert_eq!(required_monthly(100_000_000, u32::MAX, 1), Err(PlanError::Overflow));
}

#[test]
fn required_monthly_long_horizons_have_a_value() {
    assert!(required_monthly(100_000_000, 500, 400).is_ok());
    assert!(required_monthly(100_000_000, 10_000, 25).is_ok());
}

#[test]
fn required_monthly_of_zero_target_is_zero() {
    assert_eq!(required_monthly(0, 500, 5).unwrap().numerator, 0);
}

#[test]
fn simulate_one_year_of_fifty_thousand() {
    let v = simulate(50_000, 500, 1).unwrap();
    assert_eq!(v, vec![616_500_869_474_884_931]);
    let reference = float_simulation(50_000.0, 0.05, 1);
    assert_eq!(reference.len(), 1);
    assert!((yen(v[0]) - reference[0]).abs() <= 1e-6);
}

#[test]
fn simulate_thirty_years_tracks_float_trajectory() {
    let v = simulate(50_000, 500, 30).unwrap();
    let reference = float_simulation(50_000.0, 0.05, 30);
    assert_eq!(v.len(), 30);
    for (a, b) in v.iter().zip(reference.iter()) {
        assert!((yen(*a) - b).abs() / b < 1e-9);
    }
    assert_eq!(v[29], 41_786_318_983_773_892_728);
}

#[test]
fn simulate_trajectory_strictly_increases() {
    let v = simulate(1_000, 500, 3).unwrap();
    assert_eq!(
        v,
        vec![12_330_017_389_497_693, 25_290_861_869_556_861, 38_914_807_751_365_843]
    );
    for w in v.windows(2) {
        assert!(w[0] < w[1]);
    }
}

#[test]
fn simulate_balance_above_principal() {
    let v = simulate(1, 500, 1).unwrap();
    assert_eq!(v, vec![12_330_017_389_491]);
    assert!(v[0] > 12_000_000_000_000);
    let reference = float_simulation(1.0, 0.05, 1);
    assert!((yen(v[0]) - reference[0]).abs() / reference[0] < 1e-9);
}

#[test]
fn simulate_zero_contribution_stays_zero() {
    assert_eq!(simulate(0, 500, 2), Ok(vec![0, 0]));
}

#[test]
fn simulate_errors() {
    assert_eq!(simulate(50_000, 500, 0), Err(PlanError::InvalidHorizon));
    assert_eq!(simulate(50_000, 0, 1), Err(PlanError::InvalidRate));
    assert_eq!(simulate(u64::MAX, 500, 1), Err(PlanError::Overflow));
}

#[test]
fn required_monthly_fed_back_overshoots_by_one_month_of_interest() {
    let c = required_monthly(100_000_000, 500, 30).unwrap();
    let monthly = (c.numerator / c.denominator) as u64;
    let last = *simulate(monthly, 500, 30).unwrap().last().unwrap();
    let ratio = yen(last) / 100_000_000.0;
    assert!((ratio - (1.0 + 0.05 / 12.0)).abs() < 1e-4);
}

#[test]
fn simulate_nearly_linear_in_contribution() {
    let one = simulate(1, 500, 1).unwrap()[0] as f64;
    let thousand = simulate(1_000, 500, 1).unwrap()[0] as f64;
    assert!((thousand - 1_000.0 * one).abs() / thousand < 1e-9);
}
