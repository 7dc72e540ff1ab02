use wealth_plan::error::PlanError;
use wealth_plan::report::{
    first_achievable, outlook, profit_percent, projection_row, required_row, trajectory, Outlook,
    ProjectionRow, RequiredRow, Scenario, TrajectoryRow,
};

#[test]
fn standard_scenario_figures() {
    let s = Scenario::standard();
    assert_eq!(s.target, 100_000_000);
    assert_eq!(s.annual_rate_bp, 500);
    assert_eq!(s.current_monthly, 50_000);
    assert_eq!(s.horizons, vec![10, 15, 20, 25, 30]);
    assert_eq!(s.trajectory_years, 30);
}

#[test]
fn required_row_thirty_years() {
    let row = required_row(100_000_000, 500, 50_000, 30).unwrap();
    assert_eq!(
        row,
        RequiredRow {
            years: 30,
            monthly: 120_154_956_353,
            principal: 43_255_784_287_080,
            profit: 56_744_215_712_920,
            achievable: false,
        }
    );
}

#[test]
fn required_row_achievable_by_exact_quotient() {
    assert!(required_row(100_000_000, 500, 643_989, 10).unwrap().achievable);
    assert!(!required_row(100_000_000, 500, 643_988, 10).unwrap().achievable);
}

#[test]
fn required_table_standard() {
    let rows = Scenario::standard().required_table().unwrap();
    let monthly: Vec<u128> = rows.iter().map(|r| r.monthly).collect();
    assert_eq!(
        monthly,
        vec![643_988_485_740, 374_126_960_088, 243_289_072_561, 167_923_374_851, 120_154_956_353]
    );
    assert!(rows.iter().all(|r| r.principal + r.profit == 100_000_000_000_000));
}

#[test]
fn standard_scenario_is_never_achievable() {
    assert_eq!(Scenario::standard().first_achievable_horizon(), Ok(None));
}

#[test]
fn achievable_first_at_forty_five_years() {
    let row44 = required_row(100_000_000, 500, 50_000, 44).unwrap();
    let row45 = required_row(100_000_000, 500, 50_000, 45).unwrap();
    assert!(!row44.achievable);
    assert!(row45.achievable);
    assert_eq!(row44.monthly, 52_188_640_068);
    assert_eq!(row45.monthly, 49_347_690_302);
    let mut s = Scenario::standard();
    s.horizons = (1..=60).collect();
    assert_eq!(s.first_achievable_horizon(), Ok(Some(45)));
}

#[test]
fn first_achievable_horizon_with_larger_contribution() {
    let mut s = Scenario::standard();
    s.current_monthly = 250_000;
    assert_eq!(s.first_achievable_horizon(), Ok(Some(20)));
}

#[test]
fn first_achievable_picks_first_row() {
    let row = |years, achievable| RequiredRow { years, monthly: 1, principal: 1, profit: 0, achievable };
    assert_eq!(first_achievable(&vec![]), None);
    assert_eq!(first_achievable(&vec![row(5, false), row(7, true), row(9, true)]), Some(7));
}

#[test]
fn required_table_reports_error() {
    let mut s = Scenario::standard();
    s.horizons = vec![10, 0];
    assert_eq!(s.required_table(), Err(PlanError::InvalidHorizon));
    s.annual_rate_bp = 0;
    assert_eq!(s.projection_table(), Err(PlanError::InvalidRate));
}

#[test]
fn projection_row_thirty_years() {
    let row = projection_row(50_000, 500, 30).unwrap();
    assert_eq!(
        row,
        ProjectionRow {
            years: 30,
            final_balance: 41_786_318_983_773,
            principal: 18_000_000_000_000,
            profit: 23_786_318_983_773,
        }
    );
}

#[test]
fn projection_table_standard() {
    let rows = Scenario::standard().projection_table().unwrap();
    let finals: Vec<u128> = rows.iter().map(|r| r.final_balance).collect();
    assert_eq!(
        finals,
        vec![
            7_796_464_447_167,
            13_420_132_385_884,
            20_637_315_440_058,
            29_899_549_946_980,
            41_786_318_983_773
        ]
    );
}

#[test]
fn profit_percent_rounds() {
    assert_eq!(profit_percent(56_744_215_712_920, 43_255_784_287_080), Some(131));
    assert_eq!(profit_percent(1, 2), Some(50));
    assert_eq!(profit_percent(1, 200), Some(1));
    assert_eq!(profit_percent(1, 201), Some(0));
    assert_eq!(profit_percent(5, 0), None);
    assert_eq!(profit_percent(u128::MAX, 1), None);
}

#[test]
fn trajectory_standard_rows() {
    let rows = trajectory(50_000, 500, 100_000_000, 30).unwrap();
    let years: Vec<u32> = rows.iter().map(|r| r.year).collect();
    assert_eq!(years, vec![5, 10, 15, 20, 25, 30]);
    assert_eq!(
        rows[0],
        TrajectoryRow {
            year: 5,
            balance: 3_414_472_075_967,
            principal: 3_000_000_000_000,
            profit: 414_472_075_967,
            reached: false,
        }
    );
    assert!(rows.iter().all(|r| !r.reached));
}

#[test]
fn trajectory_shows_years_at_target_and_last_year() {
    let rows = trajectory(50_000, 500, 616_500, 7).unwrap();
    let years: Vec<u32> = rows.iter().map(|r| r.year).collect();
    assert_eq!(years, vec![1, 2, 3, 4, 5, 6, 7]);
    assert!(rows.iter().all(|r| r.reached));
    let rows = trajectory(50_000, 500, 616_501, 7).unwrap();
    let years: Vec<u32> = rows.iter().map(|r| r.year).collect();
    assert_eq!(years, vec![2, 3, 4, 5, 6, 7]);
    let rows = trajectory(50_000, 500, 100_000_000, 7).unwrap();
    let years: Vec<u32> = rows.iter().map(|r| r.year).collect();
    assert_eq!(years, vec![5, 7]);
}

#[test]
fn outlook_standard_falls_short() {
    let o = outlook(100_000_000, 500, 50_000, 30).unwrap();
    assert_eq!(
        o,
        Outlook::Short {
            final_balance: 41_786_318_983_773,
            shortfall: 58_213_681_016_227,
            additional_monthly: 70_154_956_353,
        }
    );
}

#[test]
fn outlook_reached() {
    assert_eq!(
        outlook(40_000_000, 500, 50_000, 30),
        Ok(Outlook::Reached { final_balance: 41_786_318_983_773 })
    );
    assert_eq!(outlook(40_000_000, 500, 50_000, 0), Err(PlanError::InvalidHorizon));
}
