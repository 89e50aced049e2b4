use cracked_lib::rrsp::{
    annual_dollar_limit, compute, compute_checked, eighteen_percent, latest_known_limit_year, new_room,
    new_room_for_year, summarize, Cents, YearData,
};

fn dollars(d: i64) -> Cents {
    d * 100
}

/// A YearData with the built-in dollar limit resolved.
fn yd(year: i32, income: Cents, pa: Cents, contribution: Cents) -> YearData {
    YearData {
        year,
        prior_year_earned_income: income,
        pension_adjustment: pa,
        contribution,
        dollar_limit: annual_dollar_limit(year),
    }
}

#[test]
fn eighteen_percent_rounds_to_nearest_cent() {
    assert_eq!(eighteen_percent(dollars(50_000)), dollars(9_000));
    assert_eq!(eighteen_percent(1_234_567), 222_222);
}

#[test]
fn built_in_table_matches_cra_verified_values() {
    let expected = [
        (2010, 22_000),
        (2011, 22_450),
        (2012, 22_970),
        (2013, 23_820),
        (2014, 24_270),
        (2015, 24_930),
        (2016, 25_370),
        (2017, 26_010),
        (2018, 26_230),
        (2019, 26_500),
        (2020, 27_230),
        (2021, 27_830),
        (2022, 29_210),
        (2023, 30_780),
        (2024, 31_560),
        (2025, 32_490),
        (2026, 33_810),
    ];
    for (year, amount) in expected {
        assert_eq!(annual_dollar_limit(year), Some(dollars(amount)), "RRSP {year}");
    }
    assert_eq!(annual_dollar_limit(2009), None);
    assert_eq!(latest_known_limit_year(), 2026);
}

#[test]
fn new_room_is_capped_by_annual_dollar_limit() {
    let d = yd(2024, dollars(250_000), 0, 0);
    let (room, known) = new_room_for_year(&d);
    assert!(known);
    assert_eq!(room, dollars(31_560));
}

#[test]
fn pension_adjustment_reduces_new_room() {
    let d = yd(2024, dollars(60_000), dollars(4_000), 0);
    let (room, _) = new_room_for_year(&d);
    assert_eq!(room, dollars(6_800));
}

#[test]
fn unused_room_carries_forward() {
    let years = vec![
        yd(2023, dollars(50_000), 0, dollars(4_000)),
        yd(2024, dollars(50_000), 0, dollars(2_000)),
    ];
    let r = compute(&years, 0);
    assert_eq!(r[0].available_room, dollars(9_000));
    assert_eq!(r[0].closing_room, dollars(5_000));
    assert_eq!(r[1].opening_room, dollars(5_000));
    assert_eq!(r[1].available_room, dollars(14_000));
    assert_eq!(r[1].closing_room, dollars(12_000));
    assert_eq!(r[1].over_contribution, 0);
}

#[test]
fn within_2000_buffer_has_no_penalty() {
    let years = vec![yd(2024, dollars(50_000), 0, dollars(10_500))];
    let r = compute(&years, 0);
    assert_eq!(r[0].closing_room, dollars(-1_500));
    assert_eq!(r[0].over_contribution, 0);
    assert_eq!(r[0].estimated_monthly_penalty, 0);
}

#[test]
fn excess_beyond_buffer_incurs_one_percent_monthly() {
    let years = vec![yd(2024, dollars(50_000), 0, dollars(12_000))];
    let r = compute(&years, 0);
    assert_eq!(r[0].closing_room, dollars(-3_000));
    assert_eq!(r[0].over_contribution, dollars(1_000));
    assert_eq!(r[0].estimated_monthly_penalty, dollars(10));
}

#[test]
fn opening_room_from_prior_history_is_respected() {
    let years = vec![yd(2024, dollars(50_000), 0, dollars(25_000))];
    let r = compute(&years, dollars(20_000));
    assert_eq!(r[0].opening_room, dollars(20_000));
    assert_eq!(r[0].available_room, dollars(29_000));
    assert_eq!(r[0].closing_room, dollars(4_000));
}

#[test]
fn a_user_supplied_limit_overrides_when_built_in_is_absent() {
    let d = YearData {
        year: 2099,
        prior_year_earned_income: dollars(300_000),
        pension_adjustment: 0,
        contribution: 0,
        dollar_limit: Some(dollars(40_000)),
    };
    let (room, known) = new_room_for_year(&d);
    assert!(known);
    assert_eq!(room, dollars(40_000));
}

#[test]
fn unknown_limit_is_flagged_and_uncapped() {
    let d = YearData {
        year: 2099,
        prior_year_earned_income: dollars(300_000),
        pension_adjustment: 0,
        contribution: 0,
        dollar_limit: None,
    };
    let (room, known) = new_room_for_year(&d);
    assert!(!known);
    assert_eq!(room, dollars(54_000));
    let r = compute(&[d], 0);
    assert!(r[0].dollar_limit_missing);
}

#[test]
fn out_of_order_years_are_sorted() {
    let years = vec![yd(2024, dollars(50_000), 0, 0), yd(2023, dollars(50_000), 0, 0)];
    let r = compute(&years, 0);
    assert_eq!(r[0].year, 2023);
    assert_eq!(r[1].year, 2024);
}

#[test]
fn rrsp_empty_input_produces_no_rows() {
    assert!(compute(&[], 0).is_empty());
    assert!(compute(&[], dollars(5_000)).is_empty());
}

#[test]
fn zero_income_grants_no_new_room() {
    let r = compute(&[yd(2024, 0, 0, 0)], 0);
    assert_eq!(r[0].new_room, 0);
    assert_eq!(r[0].available_room, 0);
}

#[test]
fn pension_adjustment_exceeding_18pct_floors_at_zero() {
    let (room, _) = new_room_for_year(&yd(2024, dollars(40_000), dollars(10_000), 0));
    assert_eq!(room, 0);
}

#[test]
fn buffer_boundary_is_exact_to_the_cent() {
    let r = compute(&[yd(2024, dollars(50_000), 0, dollars(11_000))], 0);
    assert_eq!(r[0].closing_room, dollars(-2_000));
    assert_eq!(r[0].over_contribution, 0);
    let r = compute(
        &[YearData {
            year: 2024,
            prior_year_earned_income: dollars(50_000),
            pension_adjustment: 0,
            contribution: dollars(11_000) + 1,
            dollar_limit: annual_dollar_limit(2024),
        }],
        0,
    );
    assert_eq!(r[0].over_contribution, 1);
}

#[test]
fn over_contribution_persists_then_recovers_next_year() {
    let years = vec![
        yd(2024, dollars(50_000), 0, dollars(15_000)),
        yd(2025, dollars(50_000), 0, 0),
    ];
    let r = compute(&years, 0);
    assert_eq!(r[0].closing_room, dollars(-6_000));
    assert_eq!(r[0].over_contribution, dollars(4_000));
    assert_eq!(r[1].opening_room, dollars(-6_000));
    assert_eq!(r[1].closing_room, dollars(3_000));
    assert_eq!(r[1].over_contribution, 0);
}

// ---------------------------------------------------------------------------

#[test]
fn new_room_projection_matches_year_computation() {
    // 18% of $70,000 = $12,600 under the 2025 limit, less a $1,000 adjustment.
    assert_eq!(new_room(dollars(70_000), annual_dollar_limit(2025), dollars(1_000)), (dollars(11_600), true));
    assert_eq!(new_room(dollars(70_000), None, 0), (dollars(12_600), false));
    // A negative adjustment is ignored, a negative income earns nothing.
    assert_eq!(new_room(dollars(10_000), None, dollars(-500)), (dollars(1_800), false));
    assert_eq!(new_room(dollars(-10_000), None, 0), (0, false));
}

#[test]
fn eighteen_percent_rounds_half_up_and_ignores_negative_income() {
    assert_eq!(eighteen_percent(25), 5); // 4.5 cents -> 5
    assert_eq!(eighteen_percent(24), 4); // 4.32 cents -> 4
    assert_eq!(eighteen_percent(-1_000), 0);
}

#[test]
fn closing_room_is_the_running_total() {
    let years = vec![
        yd(2022, dollars(40_000), 0, dollars(1_000)),
        yd(2023, dollars(40_000), 0, dollars(20_000)),
        yd(2024, dollars(40_000), 0, dollars(500)),
    ];
    let opening = dollars(3_000);
    let r = compute(&years, opening);
    let mut total = opening;
    for (i, row) in r.iter().enumerate() {
        if i > 0 {
            assert_eq!(row.opening_room, r[i - 1].closing_room);
        }
        total += row.new_room - row.contribution;
        assert_eq!(row.closing_room, total);
    }
    // 3,000 + 3*7,200 - 21,500 = 3,100
    assert_eq!(r[2].closing_room, dollars(3_100));
}

#[test]
fn input_order_does_not_matter_with_distinct_years() {
    let a = vec![
        yd(2022, dollars(40_000), 0, dollars(1_000)),
        yd(2023, dollars(60_000), 0, dollars(20_000)),
        yd(2024, dollars(80_000), dollars(500), 0),
    ];
    let b = vec![a[2], a[0], a[1]];
    assert_eq!(compute(&a, 0), compute(&b, 0));
}

#[test]
fn same_year_entries_keep_their_input_order() {
    let first = yd(2024, dollars(50_000), 0, dollars(1_000));
    let second = yd(2024, 0, 0, dollars(2_000));
    let r = compute(&[second, first], 0);
    assert_eq!(r[0].contribution, dollars(2_000));
    assert_eq!(r[1].contribution, dollars(1_000));
}

#[test]
fn rrsp_compute_checked_refuses_overflow_and_agrees_otherwise() {
    let years = vec![yd(2023, dollars(50_000), 0, dollars(4_000)), yd(2024, dollars(50_000), 0, 0)];
    assert_eq!(compute_checked(&years, 0), Some(compute(&years, 0)));
    let huge = YearData {
        year: 2024,
        prior_year_earned_income: i64::MAX,
        pension_adjustment: 0,
        contribution: 0,
        dollar_limit: None,
    };
    assert_eq!(compute_checked(&[huge], 0), None);
    let deep = yd(2024, 0, 0, i64::MAX);
    assert_eq!(compute_checked(&[deep], -1), None);
}

#[test]
fn summary_reports_latest_room_and_total_contributed() {
    let years = vec![
        yd(2023, dollars(50_000), 0, dollars(4_000)),
        yd(2024, dollars(50_000), 0, dollars(30_000)),
    ];
    let rows = compute(&years, dollars(1_000));
    let s = summarize(&rows, dollars(1_000)).unwrap();
    assert_eq!(s.opening_room, dollars(1_000));
    assert_eq!(s.total_contributed, dollars(34_000));
    // 1,000 + 9,000 - 4,000 + 9,000 - 30,000 = -15,000; 13,000 past the cushion.
    assert_eq!(s.current_room, dollars(-15_000));
    assert_eq!(s.current_over_contribution, dollars(13_000));
}

#[test]
fn summary_of_no_years_is_the_opening_room() {
    let s = summarize(&[], dollars(2_500)).unwrap();
    assert_eq!(s.current_room, dollars(2_500));
    assert_eq!(s.total_contributed, 0);
    assert_eq!(s.current_over_contribution, 0);
}

#[test]
fn summary_refuses_a_total_that_overflows() {
    let big = yd(2024, 0, 0, i64::MAX);
    let rows = compute(&[big], i64::MAX);
    assert_eq!(summarize(&[rows[0], rows[0]], 0), None);
}
