//! The shaping of stored records into engine input, followed by the engines,
//! on the values the store hands over (income records, per-year totals keyed
//! by year, dollar-limit overrides).

use cracked_lib::db::{self, AnnualIncome};
use cracked_lib::rrsp::Cents;
use cracked_lib::{fhsa, rrsp, tfsa};
use std::collections::BTreeMap;

const D: i64 = 100;

fn income(year: i32, earned: Cents) -> AnnualIncome {
    AnnualIncome { year, earned_income_cents: earned, pension_adjustment_cents: 0, is_estimate: false }
}

fn by_year(entries: &[(i32, Cents)]) -> BTreeMap<i32, Cents> {
    let mut m = BTreeMap::new();
    for (y, c) in entries {
        *m.entry(*y).or_insert(0) += *c;
    }
    m
}

#[test]
fn rrsp_limit_override_takes_precedence() {
    let overrides = BTreeMap::new();
    assert_eq!(db::resolve_rrsp_limit(&overrides, 2024), Some(31_560_00));
    assert_eq!(db::resolve_rrsp_limit(&overrides, 2099), None);
    let overrides = by_year(&[(2099, 40_000_00)]);
    assert_eq!(db::resolve_rrsp_limit(&overrides, 2099), Some(40_000_00));
}

#[test]
fn rrsp_year_data_maps_prior_year_income_and_limit() {
    let incomes = vec![income(2023, 50_000_00)];
    let contribs = by_year(&[(2024, 3_000_00)]);
    let data = db::rrsp_year_data(&incomes, &contribs, &BTreeMap::new());
    assert_eq!(data.len(), 1);
    assert_eq!(data[0].year, 2024);
    assert_eq!(data[0].prior_year_earned_income, 50_000_00);
    assert_eq!(data[0].dollar_limit, Some(31_560_00));
}

#[test]
fn tfsa_and_fhsa_year_data_span_to_current_year() {
    let none = BTreeMap::new();
    assert!(db::tfsa_year_data(None, &none, &none, 2026).is_empty());
    let t = db::tfsa_year_data(Some(2020), &none, &none, 2026);
    assert_eq!(t.first().unwrap().year, 2020);
    assert_eq!(t.last().unwrap().year, 2026);

    assert!(db::fhsa_year_data(None, &none, &none, 2026).is_empty());
    let f = db::fhsa_year_data(Some(2023), &none, &none, 2026);
    assert_eq!(f.first().unwrap().year, 2023);
    assert!(f.iter().all(|d| d.open));
}

#[test]
fn rrsp_multi_year_room_carries_forward_through_the_db() {
    let incomes = vec![income(2022, 50_000 * D), income(2023, 60_000 * D)];
    let contribs = by_year(&[(2023, 4_000 * D), (2024, 2_000 * D)]);
    let data = db::rrsp_year_data(&incomes, &contribs, &BTreeMap::new());
    let years = rrsp::compute(&data, 0);

    assert_eq!(years.len(), 2, "years 2023 and 2024");

    let y2023 = &years[0];
    assert_eq!(y2023.year, 2023);
    assert_eq!(y2023.new_room, 9_000 * D);
    assert_eq!(y2023.opening_room, 0);
    assert_eq!(y2023.closing_room, 5_000 * D);

    let y2024 = &years[1];
    assert_eq!(y2024.year, 2024);
    assert_eq!(y2024.new_room, 10_800 * D);
    assert_eq!(y2024.opening_room, 5_000 * D);
    assert_eq!(y2024.available_room, 15_800 * D);
    assert_eq!(y2024.closing_room, 13_800 * D);

    let summary = rrsp::summarize(&years, 0).unwrap();
    assert_eq!(summary.current_room, 13_800 * D);
    assert_eq!(summary.total_contributed, 6_000 * D);
    assert!(years.iter().all(|y| !y.dollar_limit_missing));
}

#[test]
fn rrsp_over_contribution_penalty_surfaces_through_the_db() {
    let incomes = vec![income(2023, 50_000 * D)];
    let contribs = by_year(&[(2024, 12_000 * D)]);
    let data = db::rrsp_year_data(&incomes, &contribs, &BTreeMap::new());
    let years = rrsp::compute(&data, 0);
    let last = years.last().unwrap();

    assert_eq!(last.closing_room, -3_000 * D);
    assert_eq!(last.over_contribution, 1_000 * D);
    assert_eq!(last.estimated_monthly_penalty, 10 * D);
}

#[test]
fn rrsp_user_dollar_limit_override_is_applied_end_to_end() {
    let incomes = vec![income(2098, 300_000 * D)];
    let contribs = BTreeMap::new();

    let flagged = rrsp::compute(&db::rrsp_year_data(&incomes, &contribs, &BTreeMap::new()), 0);
    assert!(flagged.last().unwrap().dollar_limit_missing, "2099 has no shipped limit");
    assert_eq!(flagged.last().unwrap().new_room, 54_000 * D);

    let overrides = by_year(&[(2099, 40_000 * D)]);
    let capped = rrsp::compute(&db::rrsp_year_data(&incomes, &contribs, &overrides), 0);
    let y = capped.last().unwrap();
    assert!(!y.dollar_limit_missing);
    assert_eq!(y.new_room, 40_000 * D);
}

#[test]
fn tfsa_withdrawal_is_readded_the_following_year_through_the_db() {
    let contribs = by_year(&[(2023, 6_500 * D)]);
    let withdrawals = by_year(&[(2023, 2_000 * D)]);
    let data = db::tfsa_year_data(Some(2023), &contribs, &withdrawals, 2024);
    let years = tfsa::compute(&data, 0);
    assert_eq!(years.len(), 2, "2023 and 2024");

    let y2023 = &years[0];
    assert_eq!(y2023.new_room, 6_500 * D);
    assert_eq!(y2023.closing_room, 0);
    assert_eq!(y2023.withdrawal, 2_000 * D);

    let y2024 = &years[1];
    assert_eq!(y2024.new_room, 7_000 * D);
    assert_eq!(y2024.withdrawals_readded, 2_000 * D, "prior-year withdrawal");
    assert_eq!(y2024.available_room, 9_000 * D);
    assert_eq!(y2024.closing_room, 9_000 * D);

    let total_withdrawn: i64 = years.iter().map(|y| y.withdrawal).sum();
    assert_eq!(total_withdrawn, 2_000 * D);
}

#[test]
fn fhsa_lifetime_grant_tracks_across_years_through_the_db() {
    let contribs = by_year(&[(2023, 8_000 * D), (2024, 8_000 * D)]);
    let data = db::fhsa_year_data(Some(2023), &contribs, &BTreeMap::new(), 2024);
    let years = fhsa::compute(&data, 2023);
    let last = years.last().unwrap();

    assert_eq!(last.lifetime_contributed, 16_000 * D);
    assert_eq!(last.lifetime_remaining, 24_000 * D);
    assert_eq!(last.closing_room, 0);
    assert!(!last.past_participation_window);
}

#[test]
fn fhsa_over_contribution_penalty_surfaces_through_the_db() {
    let contribs = by_year(&[(2024, 10_000 * D)]);
    let data = db::fhsa_year_data(Some(2024), &contribs, &BTreeMap::new(), 2024);
    let years = fhsa::compute(&data, 2024);
    let last = years.last().unwrap();
    assert_eq!(last.closing_room, -2_000 * D);
    assert_eq!(last.over_contribution, 2_000 * D);
    assert_eq!(last.estimated_monthly_penalty, 20 * D);
}
