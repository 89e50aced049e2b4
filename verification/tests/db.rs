use cracked_lib::db::{fhsa_year_data, resolve_rrsp_limit, rrsp_year_data, tfsa_year_data, AnnualIncome};
use std::collections::BTreeMap;

const D: i64 = 100;

fn income(year: i32, earned: i64, pa: i64) -> AnnualIncome {
    AnnualIncome { year, earned_income_cents: earned, pension_adjustment_cents: pa, is_estimate: false }
}

#[test]
fn rrsp_limit_override_wins_over_built_in() {
    let mut overrides = BTreeMap::new();
    assert_eq!(resolve_rrsp_limit(&overrides, 2024), Some(31_560 * D));
    assert_eq!(resolve_rrsp_limit(&overrides, 2099), None);
    overrides.insert(2099, 40_000 * D);
    overrides.insert(2024, 1 * D);
    assert_eq!(resolve_rrsp_limit(&overrides, 2099), Some(40_000 * D));
    assert_eq!(resolve_rrsp_limit(&overrides, 2024), Some(D));
}

#[test]
fn rrsp_rows_read_the_prior_year_income() {
    let incomes = vec![income(2023, 50_000 * D, 0)];
    let mut contribs = BTreeMap::new();
    contribs.insert(2024, 3_000 * D);
    let data = rrsp_year_data(&incomes, &contribs, &BTreeMap::new());
    assert_eq!(data.len(), 1);
    assert_eq!(data[0].year, 2024);
    assert_eq!(data[0].prior_year_earned_income, 50_000 * D);
    assert_eq!(data[0].contribution, 3_000 * D);
    assert_eq!(data[0].dollar_limit, Some(31_560 * D));
}

#[test]
fn rrsp_rows_span_every_year_between_first_and_last() {
    let incomes = vec![income(2020, 10 * D, 2 * D), income(2022, 30 * D, 0), income(2020, 11 * D, 0)];
    let mut contribs = BTreeMap::new();
    contribs.insert(2025, 5 * D);
    let data = rrsp_year_data(&incomes, &contribs, &BTreeMap::new());
    let years: Vec<i32> = data.iter().map(|d| d.year).collect();
    assert_eq!(years, vec![2021, 2022, 2023, 2024, 2025]);
    // The later record for 2020 wins.
    assert_eq!(data[0].prior_year_earned_income, 11 * D);
    assert_eq!(data[0].pension_adjustment, 0);
    assert_eq!(data[1].prior_year_earned_income, 0);
    assert_eq!(data[2].prior_year_earned_income, 30 * D);
    assert_eq!(data[4].contribution, 5 * D);
    assert_eq!(data[4].dollar_limit, Some(32_490 * D));
}

#[test]
fn rrsp_rows_empty_without_data() {
    assert!(rrsp_year_data(&Vec::new(), &BTreeMap::new(), &BTreeMap::new()).is_empty());
}

#[test]
fn tfsa_and_fhsa_rows_span_to_current_year() {
    let none = BTreeMap::new();
    assert!(tfsa_year_data(None, &none, &none, 2026).is_empty());
    let t = tfsa_year_data(Some(2020), &none, &none, 2026);
    assert_eq!(t.first().unwrap().year, 2020);
    assert_eq!(t.last().unwrap().year, 2026);
    assert!(t.iter().all(|d| d.eligible));

    assert!(fhsa_year_data(None, &none, &none, 2026).is_empty());
    let f = fhsa_year_data(Some(2023), &none, &none, 2026);
    assert_eq!(f.first().unwrap().year, 2023);
    assert!(f.iter().all(|d| d.open));
}

#[test]
fn account_rows_reach_the_latest_transaction_and_sum_by_year() {
    let mut contribs = BTreeMap::new();
    contribs.insert(2023, 6_500 * D);
    let mut withdrawals = BTreeMap::new();
    withdrawals.insert(2028, 2_000 * D);
    withdrawals.insert(2019, 1 * D); // before the start: outside the span
    let t = tfsa_year_data(Some(2023), &contribs, &withdrawals, 2024);
    assert_eq!(t.len(), 6);
    assert_eq!(t[0].contribution, 6_500 * D);
    assert_eq!(t[5].withdrawal, 2_000 * D);
    // The start year wins when everything else is earlier.
    let f = fhsa_year_data(Some(2030), &contribs, &BTreeMap::new(), 2024);
    assert_eq!(f.len(), 1);
    assert_eq!(f[0].year, 2030);
}

#[test]
fn rrsp_rows_empty_when_the_only_year_covered_is_the_last_representable() {
    let mut contribs = BTreeMap::new();
    contribs.insert(i32::MAX, 5 * D);
    assert!(rrsp_year_data(&Vec::new(), &contribs, &BTreeMap::new()).is_empty());
    let incomes = vec![income(i32::MAX - 1, 10 * D, 0)];
    assert!(rrsp_year_data(&incomes, &BTreeMap::new(), &BTreeMap::new()).is_empty());
    let incomes = vec![income(i32::MAX - 2, 10 * D, 0)];
    assert_eq!(rrsp_year_data(&incomes, &BTreeMap::new(), &BTreeMap::new()).len(), 1);
}
