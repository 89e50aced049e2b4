use cracked_lib::fhsa::{compute, compute_checked, Cents, YearData, PARTICIPATION_YEARS};

fn d(dollars: i64) -> Cents {
    dollars * 100
}

fn year(y: i32, contribution: Cents) -> YearData {
    YearData { year: y, open: true, contribution, withdrawal: 0 }
}

#[test]
fn grants_8000_per_year() {
    let years = vec![year(2023, 0), year(2024, 0)];
    let r = compute(&years, 2023);
    assert_eq!(r[0].new_room, d(8_000));
    assert_eq!(r[0].available_room, d(8_000));
    assert_eq!(r[1].new_room, d(8_000));
}

#[test]
fn carryforward_is_capped_at_8000() {
    let years = vec![year(2023, 0), year(2024, 0), year(2025, 0)];
    let r = compute(&years, 2023);
    assert_eq!(r[1].closing_room, d(16_000));
    assert_eq!(r[2].carryforward_in, d(8_000));
    assert_eq!(r[2].available_room, d(16_000));
}

#[test]
fn lifetime_grant_caps_at_40000() {
    let years: Vec<YearData> = (2023..2029).map(|y| year(y, 0)).collect();
    let r = compute(&years, 2023);
    let total_granted: Cents = r.iter().map(|y| y.new_room).sum();
    assert_eq!(total_granted, d(40_000));
    assert_eq!(r.last().unwrap().lifetime_remaining, 0);
    assert_eq!(r[5].new_room, 0);
}

#[test]
fn contributions_use_room_and_carry_the_remainder() {
    let years = vec![year(2023, d(3_000)), year(2024, 0)];
    let r = compute(&years, 2023);
    assert_eq!(r[0].closing_room, d(5_000));
    assert_eq!(r[1].carryforward_in, d(5_000));
    assert_eq!(r[1].available_room, d(13_000));
    assert_eq!(r[1].lifetime_contributed, d(3_000));
}

#[test]
fn over_contribution_penalised_no_buffer() {
    let years = vec![year(2023, d(9_000))];
    let r = compute(&years, 2023);
    assert_eq!(r[0].closing_room, d(-1_000));
    assert_eq!(r[0].over_contribution, d(1_000));
    assert_eq!(r[0].estimated_monthly_penalty, d(10));
}

#[test]
fn years_before_opening_grant_nothing() {
    let years = vec![YearData { year: 2022, open: false, contribution: 0, withdrawal: 0 }, year(2023, 0)];
    let r = compute(&years, 2023);
    assert_eq!(r[0].new_room, 0);
    assert_eq!(r[1].new_room, d(8_000));
}

#[test]
fn flags_years_past_participation_window() {
    let years: Vec<YearData> = (2023..=2023 + PARTICIPATION_YEARS).map(|y| year(y, 0)).collect();
    let r = compute(&years, 2023);
    assert!(!r[0].past_participation_window);
    assert!(r.last().unwrap().past_participation_window);
}

#[test]
fn fhsa_empty_input_produces_no_rows() {
    assert!(compute(&[], 2023).is_empty());
}

#[test]
fn max_16000_in_a_year_with_full_carryforward() {
    let years = vec![year(2023, 0), year(2024, d(16_000))];
    let r = compute(&years, 2023);
    assert_eq!(r[1].available_room, d(16_000));
    assert_eq!(r[1].closing_room, 0);
    assert_eq!(r[1].over_contribution, 0);
    assert_eq!(r[1].lifetime_contributed, d(16_000));
}

#[test]
fn contributing_past_lifetime_cap_is_over_contribution() {
    let mut years: Vec<YearData> = (2023..2028).map(|y| year(y, d(8_000))).collect();
    years.push(year(2028, d(1_000)));
    let r = compute(&years, 2023);
    assert_eq!(r[4].lifetime_contributed, d(40_000));
    assert_eq!(r[5].new_room, 0);
    assert_eq!(r[5].available_room, 0);
    assert_eq!(r[5].over_contribution, d(1_000));
}

#[test]
fn withdrawals_do_not_restore_room() {
    let years = vec![YearData { year: 2023, open: true, contribution: d(8_000), withdrawal: d(5_000) }];
    let r = compute(&years, 2023);
    assert_eq!(r[0].closing_room, 0);
    assert_eq!(r[0].withdrawal, d(5_000));
}

#[test]
fn over_contribution_then_recovery_next_year() {
    let years = vec![year(2023, d(10_000)), year(2024, 0)];
    let r = compute(&years, 2023);
    assert_eq!(r[0].over_contribution, d(2_000));
    assert_eq!(r[0].closing_room, d(-2_000));
    assert_eq!(r[1].carryforward_in, d(-2_000));
    assert_eq!(r[1].available_room, d(6_000));
    assert_eq!(r[1].over_contribution, 0);
}

// ---------------------------------------------------------------------------

#[test]
fn withdrawals_leave_every_other_field_unchanged() {
    let plain: Vec<YearData> = (2023..2027).map(|y| year(y, d(5_000))).collect();
    let mut with = plain.clone();
    with[1].withdrawal = d(7_000);
    with[3].withdrawal = d(1);
    let a = compute(&plain, 2023);
    let b = compute(&with, 2023);
    for (x, y) in a.iter().zip(b.iter()) {
        let mut y = *y;
        y.withdrawal = x.withdrawal;
        assert_eq!(*x, y);
    }
}

#[test]
fn lifetime_remaining_tracks_granted_room() {
    let years: Vec<YearData> = (2023..2026).map(|y| year(y, 0)).collect();
    let r = compute(&years, 2023);
    assert_eq!(r[0].lifetime_remaining, d(32_000));
    assert_eq!(r[2].lifetime_remaining, d(16_000));
}

#[test]
fn fhsa_compute_checked_refuses_overflow_and_agrees_otherwise() {
    let years = vec![year(2023, d(3_000)), year(2024, 0)];
    assert_eq!(compute_checked(&years, 2023), Some(compute(&years, 2023)));
    assert_eq!(compute_checked(&[year(2023, i64::MIN)], 2023), None);
    assert_eq!(compute_checked(&[year(2023, 0)], i32::MAX), None);
}

#[test]
fn years_marked_open_before_the_opening_year_grant_nothing() {
    let years = vec![year(2022, 0), year(2023, 0)];
    let r = compute(&years, 2023);
    assert_eq!(r[0].new_room, 0);
    assert_eq!(r[0].lifetime_remaining, d(40_000));
    assert_eq!(r[1].new_room, d(8_000));
    assert_eq!(r[1].available_room, d(8_000));
    assert_eq!(compute_checked(&years, 2023), Some(r));
}
