use cracked_lib::tfsa::{annual_dollar_limit, compute, compute_checked, latest_known_limit, Cents, YearData};

fn d(dollars: i64) -> Cents {
    dollars * 100
}

fn year(y: i32, contribution: Cents, withdrawal: Cents) -> YearData {
    YearData { year: y, eligible: true, contribution, withdrawal }
}

#[test]
fn room_accumulates_from_annual_limits() {
    let years = vec![year(2021, 0, 0), year(2022, 0, 0)];
    let r = compute(&years, 0);
    assert_eq!(r[0].available_room, d(6_000));
    assert_eq!(r[0].closing_room, d(6_000));
    assert_eq!(r[1].opening_room, d(6_000));
    assert_eq!(r[1].available_room, d(12_000));
}

#[test]
fn ineligible_years_accrue_nothing() {
    let years = vec![
        YearData { year: 2020, eligible: false, contribution: 0, withdrawal: 0 },
        year(2021, 0, 0),
    ];
    let r = compute(&years, 0);
    assert_eq!(r[0].new_room, 0);
    assert_eq!(r[1].new_room, d(6_000));
}

#[test]
fn withdrawal_is_readded_the_following_year_only() {
    let years = vec![year(2021, d(6_000), d(4_000)), year(2022, 0, 0)];
    let r = compute(&years, 0);
    assert_eq!(r[0].closing_room, 0);
    assert_eq!(r[0].withdrawal, d(4_000));
    assert_eq!(r[1].withdrawals_readded, d(4_000));
    assert_eq!(r[1].available_room, d(10_000));
}

#[test]
fn recontributing_a_withdrawal_same_year_is_over_contribution() {
    let years = vec![year(2021, d(8_000), d(2_000))];
    let r = compute(&years, 0);
    assert_eq!(r[0].closing_room, d(-2_000));
    assert_eq!(r[0].over_contribution, d(2_000));
    assert_eq!(r[0].estimated_monthly_penalty, d(20));
}

#[test]
fn no_buffer_unlike_rrsp() {
    let years = vec![year(2021, d(6_100), 0)];
    let r = compute(&years, 0);
    assert_eq!(r[0].over_contribution, d(100));
    assert_eq!(r[0].estimated_monthly_penalty, 100);
}

#[test]
fn future_year_uses_latest_limit_and_flags_estimate() {
    let years = vec![YearData { year: 2099, eligible: true, contribution: 0, withdrawal: 0 }];
    let r = compute(&years, 0);
    assert!(r[0].dollar_limit_missing);
    assert_eq!(r[0].new_room, latest_known_limit());
}

// ---------------------------------------------------------------------------

#[test]
fn published_limits_and_latest_estimate() {
    assert_eq!(annual_dollar_limit(2009), Some(d(5_000)));
    assert_eq!(annual_dollar_limit(2015), Some(d(10_000)));
    assert_eq!(annual_dollar_limit(2026), Some(d(7_000)));
    assert_eq!(annual_dollar_limit(2008), None);
    assert_eq!(annual_dollar_limit(2027), None);
    assert_eq!(latest_known_limit(), d(7_000));
}

#[test]
fn cumulative_room_2009_to_2026_is_109000() {
    let years: Vec<YearData> = (2009..=2026).map(|y| year(y, 0, 0)).collect();
    let r = compute(&years, 0);
    assert_eq!(r.last().unwrap().closing_room, d(109_000));
    assert!(r.iter().all(|y| !y.dollar_limit_missing));
}

#[test]
fn withdrawal_changes_only_later_years() {
    let without = compute(&[year(2021, d(6_000), 0), year(2022, 0, 0)], 0);
    let with = compute(&[year(2021, d(6_000), d(1_500)), year(2022, 0, 0)], 0);
    assert_eq!(without[0].closing_room, with[0].closing_room);
    assert_eq!(with[1].closing_room - without[1].closing_room, d(1_500));
    assert_eq!(with[0].withdrawals_readded, 0);
}

#[test]
fn tfsa_compute_checked_refuses_overflow_and_agrees_otherwise() {
    let years = vec![year(2021, d(6_000), d(4_000)), year(2022, 0, 0)];
    assert_eq!(compute_checked(&years, 0), Some(compute(&years, 0)));
    assert_eq!(compute_checked(&[year(2021, 0, 0)], i64::MAX), None);
    assert_eq!(compute_checked(&[year(2021, i64::MIN, 0)], 0), None);
}
