//! RRSP contribution-room rule engine.
//!
//! New room for a year is 18% of the prior year's earned income (rounded to
//! the nearest cent), capped by that year's annual dollar limit when it is
//! known, less the pension adjustment, floored at zero. Unused room carries
//! forward indefinitely. Cumulative over-contribution beyond a $2,000 cushion
//! is estimated to cost 1% of the excess per month.

use vstd::prelude::*;
use crate::order::{permute, stable_order, stable_order_by_year, occurs, lemma_sorted_by_stable_order,
    distinct_keys, is_permutation, lemma_sort_ignores_input_order};

verus! {

/// Money in whole cents. $1.00 == 100.
pub type Cents = i64;

/// The tolerated over-contribution cushion: $2,000.
pub const OVER_CONTRIBUTION_BUFFER: Cents = 2_000_00;

/// Monthly penalty rate on the excess over the cushion: 1% per month.
pub const MONTHLY_PENALTY_RATE_PERCENT: i64 = 1;

/// The published RRSP annual dollar limits, in whole dollars.
pub open spec fn limit_table_dollars(year: i32) -> Option<int> {
    if year == 2010 { Some(22_000) }
    else if year == 2011 { Some(22_450) }
    else if year == 2012 { Some(22_970) }
    else if year == 2013 { Some(23_820) }
    else if year == 2014 { Some(24_270) }
    else if year == 2015 { Some(24_930) }
    else if year == 2016 { Some(25_370) }
    else if year == 2017 { Some(26_010) }
    else if year == 2018 { Some(26_230) }
    else if year == 2019 { Some(26_500) }
    else if year == 2020 { Some(27_230) }
    else if year == 2021 { Some(27_830) }
    else if year == 2022 { Some(29_210) }
    else if year == 2023 { Some(30_780) }
    else if year == 2024 { Some(31_560) }
    else if year == 2025 { Some(32_490) }
    else if year == 2026 { Some(33_810) }
    else { None }
}

/// The built-in limit for `year` in cents.
pub open spec fn limit_table_cents(year: i32) -> Option<Cents> {
    match limit_table_dollars(year) {
        Some(d) => Some((d * 100) as Cents),
        None => None,
    }
}

fn table_dollars(year: i32) -> (r: Option<i64>)
    ensures
        match r {
            Some(d) => limit_table_dollars(year) == Some(d as int),
            None => limit_table_dollars(year) is None,
        },
{
    match year {
        2010 => Some(22_000),
        2011 => Some(22_450),
        2012 => Some(22_970),
        2013 => Some(23_820),
        2014 => Some(24_270),
        2015 => Some(24_930),
        2016 => Some(25_370),
        2017 => Some(26_010),
        2018 => Some(26_230),
        2019 => Some(26_500),
        2020 => Some(27_230),
        2021 => Some(27_830),
        2022 => Some(29_210),
        2023 => Some(30_780),
        2024 => Some(31_560),
        2025 => Some(32_490),
        2026 => Some(33_810),
        _ => None,
    }
}

/// The built-in RRSP annual dollar limit for `year`, in cents, or `None` when
/// no figure ships for that year.
pub fn annual_dollar_limit(year: i32) -> (r: Option<Cents>)
    ensures
        r == limit_table_cents(year),
{
    match table_dollars(year) {
        Some(dollars) => Some(dollars * 100),
        None => None,
    }
}

/// The most recent year for which a built-in limit exists.
pub fn latest_known_limit_year() -> (r: i32)
    ensures
        limit_table_dollars(r) is Some,
        forall|y: i32| y > r ==> limit_table_dollars(y) is None,
{
    2026
}

/// A per-year input: one entry per calendar year.
#[derive(Debug, Clone, Copy, PartialEq, Eq, Structural)]
pub struct YearData {
    pub year: i32,
    /// Earned income of the prior year, which drives this year's new room.
    pub prior_year_earned_income: Cents,
    /// Pension adjustment (0 if none).
    pub pension_adjustment: Cents,
    /// Total contributed toward this year's room.
    pub contribution: Cents,
    /// The annual dollar limit for this year, already resolved; `None` when unknown.
    pub dollar_limit: Option<Cents>,
}

/// The computed room picture for a single year.
#[derive(Debug, Clone, Copy, PartialEq, Eq, Structural)]
pub struct YearComputation {
    pub year: i32,
    /// New room earned this year.
    pub new_room: Cents,
    /// Unused room carried in.
    pub opening_room: Cents,
    /// `opening_room + new_room`.
    pub available_room: Cents,
    pub contribution: Cents,
    /// Unused room carried out; negative means cumulative over-contribution.
    pub closing_room: Cents,
    /// Over-contribution beyond the cushion (0 within it).
    pub over_contribution: Cents,
    /// Penalty for one month on the excess (1%).
    pub estimated_monthly_penalty: Cents,
    /// True when the year's dollar limit was unknown (room uncapped).
    pub dollar_limit_missing: bool,
}

pub open spec fn max_int(a: int, b: int) -> int {
    if a >= b { a } else { b }
}

pub open spec fn min_int(a: int, b: int) -> int {
    if a <= b { a } else { b }
}

pub open spec fn in_i64(x: int) -> bool {
    i64::MIN <= x <= i64::MAX
}

/// 18% of a (non-negative part of an) income, rounded half up to the cent.
pub open spec fn eighteen_percent_spec(income: int) -> int {
    (max_int(income, 0) * 18 + 50) / 100
}

/// New room from a prior-year income under a (possibly unknown) dollar limit,
/// less the pension adjustment, floored at zero.
pub open spec fn new_room_spec(income: int, dollar_limit: Option<Cents>, pension_adjustment: int) -> int {
    let base = eighteen_percent_spec(income);
    let capped = match dollar_limit {
        Some(limit) => min_int(base, limit as int),
        None => base,
    };
    max_int(capped - max_int(pension_adjustment, 0), 0)
}

/// The room computation for these inputs stays within `i64`.
pub open spec fn new_room_fits(income: int, dollar_limit: Option<Cents>, pension_adjustment: int) -> bool {
    let base = eighteen_percent_spec(income);
    let capped = match dollar_limit {
        Some(limit) => min_int(base, limit as int),
        None => base,
    };
    &&& max_int(income, 0) * 18 + 50 <= i64::MAX
    &&& in_i64(capped - max_int(pension_adjustment, 0))
}

pub open spec fn year_room(d: YearData) -> int {
    new_room_spec(d.prior_year_earned_income as int, d.dollar_limit, d.pension_adjustment as int)
}

/// Round `income * 18%` to the nearest cent.
pub fn eighteen_percent(income: Cents) -> (r: Cents)
    requires
        max_int(income as int, 0) * 18 + 50 <= i64::MAX,
    ensures
        r == eighteen_percent_spec(income as int),
{
    let income = if income > 0 { income } else { 0 };
    (income * 18 + 50) / 100
}

/// The new room a year grants, and whether its dollar limit was known.
pub fn new_room_for_year(data: &YearData) -> (r: (Cents, bool))
    requires
        new_room_fits(data.prior_year_earned_income as int, data.dollar_limit, data.pension_adjustment as int),
    ensures
        r.0 == year_room(*data),
        r.1 == data.dollar_limit is Some,
{
    let income_based = eighteen_percent(data.prior_year_earned_income);
    let (capped, limit_known) = match data.dollar_limit {
        Some(limit) => (if income_based <= limit { income_based } else { limit }, true),
        None => (income_based, false),
    };
    let pa = if data.pension_adjustment > 0 { data.pension_adjustment } else { 0 };
    let room = capped - pa;
    (if room > 0 { room } else { 0 }, limit_known)
}

/// The new room a prior-year income would generate under a dollar limit (the
/// limit of the year the room applies to), and whether that limit was known.
pub fn new_room(prior_year_income: Cents, dollar_limit: Option<Cents>, pension_adjustment: Cents) -> (r: (Cents, bool))
    requires
        new_room_fits(prior_year_income as int, dollar_limit, pension_adjustment as int),
    ensures
        r.0 == new_room_spec(prior_year_income as int, dollar_limit, pension_adjustment as int),
        r.1 == dollar_limit is Some,
{
    new_room_for_year(&YearData {
        year: 0,
        prior_year_earned_income: prior_year_income,
        pension_adjustment,
        contribution: 0,
        dollar_limit,
    })
}

/// The years in processing order: ascending by year, ties in input order.
pub open spec fn by_year(years: Seq<YearData>) -> Seq<YearData> {
    permute(years, stable_order(years.map_values(|d: YearData| d.year)))
}

/// Unused room carried into position `i` of the ordered years `s`.
pub open spec fn carry_in(s: Seq<YearData>, opening: int, i: int) -> int
    decreases i,
{
    if i <= 0 {
        opening
    } else {
        carry_in(s, opening, i - 1) + year_room(s[i - 1]) - s[i - 1].contribution
    }
}

/// Over-contribution beyond the cushion for a closing room.
pub open spec fn excess_spec(closing: int) -> int {
    max_int(-closing - OVER_CONTRIBUTION_BUFFER, 0)
}

/// Every intermediate value of one year's computation stays within `i64`.
pub open spec fn step_fits(d: YearData, carry: int) -> bool {
    let room = year_room(d);
    let closing = carry + room - d.contribution;
    &&& new_room_fits(d.prior_year_earned_income as int, d.dollar_limit, d.pension_adjustment as int)
    &&& in_i64(carry + room)
    &&& in_i64(closing)
    &&& in_i64(-closing)
    &&& in_i64(-closing - OVER_CONTRIBUTION_BUFFER)
}

/// The whole computation stays within `i64`.
pub open spec fn computation_fits(years: Seq<YearData>, opening: int) -> bool {
    let s = by_year(years);
    forall|i: int| 0 <= i < s.len() ==> step_fits(#[trigger] s[i], carry_in(s, opening, i))
}

/// `r` is the row computed for `d` when `carry` room is carried in.
pub open spec fn row_matches(r: YearComputation, d: YearData, carry: int) -> bool {
    let room = year_room(d);
    let closing = carry + room - d.contribution;
    &&& r.year == d.year
    &&& r.new_room == room
    &&& r.opening_room == carry
    &&& r.available_room == carry + room
    &&& r.contribution == d.contribution
    &&& r.closing_room == closing
    &&& r.over_contribution == excess_spec(closing)
    &&& r.estimated_monthly_penalty == excess_spec(closing) * MONTHLY_PENALTY_RATE_PERCENT / 100
    &&& r.dollar_limit_missing == d.dollar_limit is None
}

/// The rows of the computation for these inputs.
pub open spec fn rows_match(rows: Seq<YearComputation>, years: Seq<YearData>, opening: int) -> bool {
    let s = by_year(years);
    &&& rows.len() == s.len()
    &&& forall|i: int| 0 <= i < s.len() ==> row_matches(#[trigger] rows[i], s[i], carry_in(s, opening, i))
}

/// The years in processing order: ascending by year, ties in input order.
fn in_year_order(years: &[YearData]) -> (sorted: Vec<YearData>)
    ensures
        sorted@ == by_year(years@),
        sorted@.len() == years@.len(),
{
    let n = years.len();
    let mut keys: Vec<i32> = Vec::new();
    let mut i: usize = 0;
    while i < n
        invariant
            n == years@.len(),
            i <= n,
            keys@ == years@.take(i as int).map_values(|d: YearData| d.year),
        decreases n - i,
    {
        keys.push(years[i].year);
        i = i + 1;
        proof {
            assert(years@.take(i as int) =~= years@.take(i - 1).push(years@[i - 1]));
            assert(keys@ =~= years@.take(i as int).map_values(|d: YearData| d.year));
        }
    }
    proof {
        assert(years@.take(n as int) =~= years@);
    }
    let order = stable_order_by_year(&keys);
    let ghost s = by_year(years@);
    proof {
        let o = order@.map_values(|x: usize| x as int);
        assert(keys@ == years@.map_values(|d: YearData| d.year));
        assert forall|j: int| 0 <= j < n implies 0 <= #[trigger] order@[j] < n && s[j]
            == years@[order@[j] as int] by {
            assert(o[j] == order@[j] as int);
        }
    }
    let mut out: Vec<YearData> = Vec::new();
    let mut k: usize = 0;
    while k < n
        invariant
            n == years@.len(),
            k <= n,
            s == by_year(years@),
            s.len() == n,
            order@.len() == n,
            forall|j: int| 0 <= j < n ==> 0 <= #[trigger] order@[j] < n && s[j] == years@[order@[j] as int],
            out@ == s.take(k as int),
        decreases n - k,
    {
        out.push(years[order[k]]);
        k = k + 1;
        proof {
            assert(out@ =~= s.take(k as int));
        }
    }
    proof {
        assert(s.take(n as int) =~= s);
    }
    out
}

/// Run the multi-year computation. `opening_unused_room` is the unused room
/// carried in before the earliest year. Years are processed in ascending order.
pub fn compute(years: &[YearData], opening_unused_room: Cents) -> (out: Vec<YearComputation>)
    requires
        computation_fits(years@, opening_unused_room as int),
    ensures
        rows_match(out@, years@, opening_unused_room as int),
{
    let sorted = in_year_order(years);
    let n = sorted.len();
    let ghost s = by_year(years@);
    let ghost opening = opening_unused_room as int;

    let mut carry = opening_unused_room;
    let mut out: Vec<YearComputation> = Vec::new();
    let mut k: usize = 0;
    while k < n
        invariant
            n == years@.len(),
            k <= n,
            s == by_year(years@),
            s.len() == n,
            sorted@ == s,
            computation_fits(years@, opening),
            carry as int == carry_in(s, opening, k as int),
            out@.len() == k,
            forall|j: int| 0 <= j < k ==> row_matches(#[trigger] out@[j], s[j], carry_in(s, opening, j)),
        decreases n - k,
    {
        let data = sorted[k];
        assert(step_fits(s[k as int], carry_in(s, opening, k as int)));
        let (new_room, limit_known) = new_room_for_year(&data);
        let opening_room = carry;
        let available_room = opening_room + new_room;
        let closing_room = available_room - data.contribution;
        let below = -closing_room - OVER_CONTRIBUTION_BUFFER;
        let excess = if below > 0 { below } else { 0 };
        let penalty = excess * MONTHLY_PENALTY_RATE_PERCENT / 100;
        out.push(YearComputation {
            year: data.year,
            new_room,
            opening_room,
            available_room,
            contribution: data.contribution,
            closing_room,
            over_contribution: excess,
            estimated_monthly_penalty: penalty,
            dollar_limit_missing: !limit_known,
        });
        carry = closing_room;
        k = k + 1;
    }
    out
}


/// Run the computation when every value stays within `i64`, as `compute`
/// does; `None` on the inputs where a value would leave that range.
pub fn compute_checked(years: &[YearData], opening_unused_room: Cents) -> (r: Option<Vec<YearComputation>>)
    ensures
        r is Some <==> computation_fits(years@, opening_unused_room as int),
        r matches Some(rows) ==> rows_match(rows@, years@, opening_unused_room as int),
{
    let sorted = in_year_order(years);
    let n = sorted.len();
    let ghost s = by_year(years@);
    let ghost opening = opening_unused_room as int;
    let lo: i128 = i64::MIN as i128;
    let hi: i128 = i64::MAX as i128;
    let mut carry: i128 = opening_unused_room as i128;
    let mut k: usize = 0;
    while k < n
        invariant
            s == by_year(years@),
            s.len() == n,
            sorted@ == s,
            k <= n,
            opening == opening_unused_room as int,
            lo == i64::MIN,
            hi == i64::MAX,
            carry as int == carry_in(s, opening, k as int),
            in_i64(carry as int),
            forall|j: int| 0 <= j < k ==> step_fits(#[trigger] s[j], carry_in(s, opening, j)),
        decreases n - k,
    {
        let d = sorted[k];
        let income: i128 = if d.prior_year_earned_income > 0 { d.prior_year_earned_income as i128 } else { 0 };
        if income * 18 + 50 > hi {
            proof {
                assert(!step_fits(s[k as int], carry_in(s, opening, k as int)));
                assert(!computation_fits(years@, opening));
            }
            return None;
        }
        let base: i128 = (income * 18 + 50) / 100;
        let capped: i128 = match d.dollar_limit {
            Some(limit) => if base <= limit as i128 { base } else { limit as i128 },
            None => base,
        };
        let pa: i128 = if d.pension_adjustment > 0 { d.pension_adjustment as i128 } else { 0 };
        let diff = capped - pa;
        if diff < lo || diff > hi {
            proof {
                assert(!step_fits(s[k as int], carry_in(s, opening, k as int)));
                assert(!computation_fits(years@, opening));
            }
            return None;
        }
        let room: i128 = if diff > 0 { diff } else { 0 };
        assert(room == year_room(d));
        let available = carry + room;
        if available < lo || available > hi {
            proof {
                assert(!step_fits(s[k as int], carry_in(s, opening, k as int)));
                assert(!computation_fits(years@, opening));
            }
            return None;
        }
        let closing = available - d.contribution as i128;
        if closing < lo || closing > hi || -closing > hi || -closing - (OVER_CONTRIBUTION_BUFFER as i128) < lo {
            proof {
                assert(!step_fits(s[k as int], carry_in(s, opening, k as int)));
                assert(!computation_fits(years@, opening));
            }
            return None;
        }
        carry = closing;
        k = k + 1;
    }
    Some(compute(years, opening_unused_room))
}

/// The headline figures of a computation.
#[derive(Debug, Clone, Copy, PartialEq, Eq, Structural)]
pub struct Summary {
    /// Unused room going forward: the closing room of the latest year, or the
    /// opening room when no year is tracked.
    pub current_room: Cents,
    /// Total contributed across all tracked years.
    pub total_contributed: Cents,
    /// Over-contribution beyond the cushion in the latest year.
    pub current_over_contribution: Cents,
    /// The room carried in before the earliest tracked year.
    pub opening_room: Cents,
}

/// The sum of the contributions of `rows`.
pub open spec fn contributed_total(rows: Seq<YearComputation>) -> int
    decreases rows.len(),
{
    if rows.len() == 0 {
        0
    } else {
        contributed_total(rows.drop_last()) + rows.last().contribution
    }
}

/// Every running total of the contributions, taken row by row, is an `i64`.
pub open spec fn running_totals_fit(rows: Seq<YearComputation>) -> bool {
    forall|k: int| 0 <= k <= rows.len() ==> in_i64(#[trigger] contributed_total(rows.take(k)))
}

/// The headline figures of `rows` computed from `opening_room`; `None` when a
/// running total of the contributions would leave `i64`.
pub fn summarize(rows: &[YearComputation], opening_room: Cents) -> (r: Option<Summary>)
    ensures
        r is Some <==> running_totals_fit(rows@),
        r matches Some(sum) ==> {
            &&& sum.opening_room == opening_room
            &&& sum.total_contributed == contributed_total(rows@)
            &&& sum.current_room == if rows@.len() == 0 {
                opening_room
            } else {
                rows@.last().closing_room
            }
            &&& sum.current_over_contribution == if rows@.len() == 0 {
                0
            } else {
                rows@.last().over_contribution
            }
        },
{
    let n = rows.len();
    let mut total: Cents = 0;
    let mut k: usize = 0;
    proof {
        assert(rows@.take(0) =~= Seq::<YearComputation>::empty());
    }
    while k < n
        invariant
            n == rows@.len(),
            k <= n,
            total as int == contributed_total(rows@.take(k as int)),
            forall|j: int| 0 <= j <= k ==> in_i64(#[trigger] contributed_total(rows@.take(j))),
        decreases n - k,
    {
        proof {
            assert(rows@.take(k as int + 1).drop_last() =~= rows@.take(k as int));
        }
        match total.checked_add(rows[k].contribution) {
            Some(t) => {
                total = t;
                k = k + 1;
            },
            None => {
                proof {
                    assert(!in_i64(contributed_total(rows@.take(k as int + 1))));
                }
                return None;
            },
        }
    }
    proof {
        assert(rows@.take(n as int) =~= rows@);
    }
    let (current_room, current_over_contribution) = if n == 0 {
        (opening_room, 0)
    } else {
        (rows[n - 1].closing_room, rows[n - 1].over_contribution)
    };
    Some(Summary { current_room, total_contributed: total, current_over_contribution, opening_room })
}

/// Some row carries the year and contribution of `d`.
pub open spec fn has_row_for(rows: Seq<YearComputation>, d: YearData) -> bool {
    exists|i: int| 0 <= i < rows.len() && #[trigger] rows[i].year == d.year && rows[i].contribution == d.contribution
}

/// The rows come out in ascending year order, one row per input year, and
/// every input year has its row.
pub proof fn lemma_rows_in_year_order(years: Seq<YearData>, opening: int, rows: Seq<YearComputation>)
    requires
        rows_match(rows, years, opening),
    ensures
        rows.len() == years.len(),
        forall|i: int, j: int| 0 <= i < j < rows.len() ==> #[trigger] rows[i].year <= #[trigger] rows[j].year,
        forall|k: int| 0 <= k < years.len() ==> has_row_for(rows, #[trigger] years[k]),
{
    let keys = years.map_values(|d: YearData| d.year);
    let o = stable_order(keys);
    lemma_sorted_by_stable_order(keys);
    let s = by_year(years);
    assert forall|i: int, j: int| 0 <= i < j < rows.len() implies #[trigger] rows[i].year <= #[trigger] rows[j].year by {
        assert(keys[o[i]] <= keys[o[j]]);
        assert(s[i] == years[o[i]] && s[j] == years[o[j]]);
    }
    assert forall|k: int| 0 <= k < years.len() implies has_row_for(rows, #[trigger] years[k]) by {
        assert(occurs(o, k));
        let i = choose|i: int| 0 <= i < o.len() && #[trigger] o[i] == k;
        assert(s[i] == years[k]);
        assert(row_matches(rows[i], s[i], carry_in(s, opening, i)));
    }
}

/// Unused room carries forward: each year opens with the previous year's
/// closing room (the first with the opening room given), has its new room
/// added, and closes with its contributions taken out.
pub proof fn lemma_room_carries_forward(years: Seq<YearData>, opening: int, rows: Seq<YearComputation>)
    requires
        rows_match(rows, years, opening),
    ensures
        rows.len() > 0 ==> rows[0].opening_room == opening,
        forall|i: int| 0 < i < rows.len() ==> #[trigger] rows[i].opening_room == rows[i - 1].closing_room,
        forall|i: int| 0 <= i < rows.len() ==> #[trigger] rows[i].available_room == rows[i].opening_room + rows[i].new_room,
        forall|i: int| 0 <= i < rows.len() ==> #[trigger] rows[i].closing_room == rows[i].available_room - rows[i].contribution,
{
    let s = by_year(years);
    if rows.len() > 0 {
        assert(row_matches(rows[0], s[0], carry_in(s, opening, 0)));
    }
    assert forall|i: int| 0 < i < rows.len() implies #[trigger] rows[i].opening_room == rows[i - 1].closing_room by {
        assert(row_matches(rows[i], s[i], carry_in(s, opening, i)));
        assert(row_matches(rows[i - 1], s[i - 1], carry_in(s, opening, i - 1)));
    }
    assert forall|i: int| 0 <= i < rows.len() implies #[trigger] rows[i].available_room == rows[i].opening_room + rows[i].new_room by {
        assert(row_matches(rows[i], s[i], carry_in(s, opening, i)));
    }
    assert forall|i: int| 0 <= i < rows.len() implies #[trigger] rows[i].closing_room == rows[i].available_room - rows[i].contribution by {
        assert(row_matches(rows[i], s[i], carry_in(s, opening, i)));
    }
}

/// New room minus contributions over the first `n` rows.
pub open spec fn net_room_added(rows: Seq<YearComputation>, n: int) -> int
    decreases n,
{
    if n <= 0 {
        0
    } else {
        net_room_added(rows, n - 1) + rows[n - 1].new_room - rows[n - 1].contribution
    }
}

/// A year's closing room is the opening room plus all new room so far minus
/// all contributions so far.
pub proof fn lemma_closing_is_running_total(years: Seq<YearData>, opening: int, rows: Seq<YearComputation>, i: int)
    requires
        rows_match(rows, years, opening),
        0 <= i < rows.len(),
    ensures
        rows[i].closing_room == opening + net_room_added(rows, i + 1),
    decreases i,
{
    lemma_room_carries_forward(years, opening, rows);
    assert(rows[i].closing_room == rows[i].available_room - rows[i].contribution);
    assert(rows[i].available_room == rows[i].opening_room + rows[i].new_room);
    if i > 0 {
        lemma_closing_is_running_total(years, opening, rows, i - 1);
        assert(rows[i].opening_room == rows[i - 1].closing_room);
    } else {
        assert(rows[0].opening_room == opening);
        assert(net_room_added(rows, 0) == 0);
    }
    assert(net_room_added(rows, i + 1) == net_room_added(rows, i) + rows[i].new_room - rows[i].contribution);
}

/// The headline room left is the opening room plus all new room ever earned
/// minus all contributions ever made.
pub proof fn lemma_current_room_is_net_total(
    years: Seq<YearData>,
    opening: Cents,
    rows: Seq<YearComputation>,
    current_room: Cents,
)
    requires
        rows_match(rows, years, opening as int),
        current_room == if rows.len() == 0 { opening } else { rows.last().closing_room },
    ensures
        current_room == opening + net_room_added(rows, rows.len() as int),
{
    if rows.len() > 0 {
        lemma_closing_is_running_total(years, opening as int, rows, rows.len() - 1);
    }
}

/// Each row's figures: its new room is what `new_room` gives for that year's
/// income, limit and pension adjustment, flagged exactly when the limit is
/// unknown; its over-contribution is whatever of a negative closing room lies
/// past the $2,000 cushion; and its monthly penalty is 1% of that.
pub proof fn lemma_row_figures(years: Seq<YearData>, opening: int, rows: Seq<YearComputation>)
    requires
        rows_match(rows, years, opening),
    ensures
        forall|i: int| 0 <= i < rows.len() ==> #[trigger] rows[i].new_room == new_room_spec(
            by_year(years)[i].prior_year_earned_income as int,
            by_year(years)[i].dollar_limit,
            by_year(years)[i].pension_adjustment as int,
        ) && rows[i].dollar_limit_missing == (by_year(years)[i].dollar_limit is None),
        forall|i: int| 0 <= i < rows.len() ==> #[trigger] rows[i].over_contribution == if rows[i].closing_room
            < -2_000_00 {
            -rows[i].closing_room - 2_000_00
        } else {
            0
        },
        forall|i: int| 0 <= i < rows.len() ==> #[trigger] rows[i].estimated_monthly_penalty
            == rows[i].over_contribution / 100,
{
    let s = by_year(years);
    assert forall|i: int| 0 <= i < rows.len() implies row_matches(#[trigger] rows[i], s[i], carry_in(s, opening, i)) by {}
}

/// The table holds the published annual limits, in cents, for 2010 through
/// 2026, and no other year has a figure.
pub proof fn lemma_published_limits()
    ensures
        limit_table_cents(2010) == Some(22_000_00i64),
        limit_table_cents(2011) == Some(22_450_00i64),
        limit_table_cents(2012) == Some(22_970_00i64),
        limit_table_cents(2013) == Some(23_820_00i64),
        limit_table_cents(2014) == Some(24_270_00i64),
        limit_table_cents(2015) == Some(24_930_00i64),
        limit_table_cents(2016) == Some(25_370_00i64),
        limit_table_cents(2017) == Some(26_010_00i64),
        limit_table_cents(2018) == Some(26_230_00i64),
        limit_table_cents(2019) == Some(26_500_00i64),
        limit_table_cents(2020) == Some(27_230_00i64),
        limit_table_cents(2021) == Some(27_830_00i64),
        limit_table_cents(2022) == Some(29_210_00i64),
        limit_table_cents(2023) == Some(30_780_00i64),
        limit_table_cents(2024) == Some(31_560_00i64),
        limit_table_cents(2025) == Some(32_490_00i64),
        limit_table_cents(2026) == Some(33_810_00i64),
        forall|y: i32| (y < 2010 || y > 2026) ==> #[trigger] limit_table_cents(y) is None,
{
}

/// When a dollar limit is known, the pension adjustment comes off the capped
/// room, not off 18% of the income: the room plus the adjustment never
/// exceeds the limit (unless the room is 0), and for an income whose 18%
/// reaches the limit, each extra cent of adjustment takes one cent off the
/// room while the room is positive.
pub proof fn lemma_pension_adjustment_comes_off_the_capped_room(income: int, limit: Cents, pension_adjustment: int)
    requires
        pension_adjustment >= 0,
    ensures
        new_room_spec(income, Some(limit), pension_adjustment) == 0
            || new_room_spec(income, Some(limit), pension_adjustment) + pension_adjustment <= limit,
        new_room_spec(income, Some(limit), pension_adjustment) == 0
            || new_room_spec(income, Some(limit), pension_adjustment) + pension_adjustment
                <= (if income > 0 { income } else { 0 }) * 18 / 100 + 1,
        income * 18 >= limit * 100 ==> new_room_spec(income, Some(limit), pension_adjustment) == if limit
            - pension_adjustment > 0 {
            limit - pension_adjustment
        } else {
            0
        },
        income * 18 >= limit * 100 && new_room_spec(income, Some(limit), pension_adjustment) > 0
            ==> new_room_spec(income, Some(limit), pension_adjustment + 1)
                == new_room_spec(income, Some(limit), pension_adjustment) - 1,
{
    let x = if income > 0 { income } else { 0 };
    assert((x * 18 + 50) / 100 <= x * 18 / 100 + 1);
    if income * 18 >= limit * 100 {
        if income > 0 {
            assert((income * 18 + 50) / 100 >= limit);
        } else {
            assert(limit * 100 <= 0);
        }
    }
}

/// New room is never negative, never more than 18% of the prior year's
/// income, and never more than a known dollar limit.
pub proof fn lemma_new_room_bounds(income: int, dollar_limit: Option<Cents>, pension_adjustment: int)
    ensures
        0 <= new_room_spec(income, dollar_limit, pension_adjustment) <= eighteen_percent_spec(income),
        dollar_limit matches Some(limit) ==> new_room_spec(income, dollar_limit, pension_adjustment)
            <= max_int(limit as int, 0),
        income <= 0 ==> new_room_spec(income, dollar_limit, pension_adjustment) == 0,
{
    assert(0 <= eighteen_percent_spec(income)) by (nonlinear_arith);
    if income <= 0 {
        assert(eighteen_percent_spec(income) == 0);
    }
}

/// More prior-year income never yields less room; a larger pension
/// adjustment never yields more.
pub proof fn lemma_new_room_monotone(income1: int, income2: int, dollar_limit: Option<Cents>, pa1: int, pa2: int)
    requires
        income1 <= income2,
        pa2 <= pa1,
    ensures
        new_room_spec(income1, dollar_limit, pa1) <= new_room_spec(income2, dollar_limit, pa2),
{
    let a = max_int(income1, 0) * 18 + 50;
    let b = max_int(income2, 0) * 18 + 50;
    assert(a <= b);
    assert(a / 100 <= b / 100) by (nonlinear_arith)
        requires a <= b, 0 <= a;
}

/// There is no penalty while the closing room is within the $2,000 cushion;
/// beyond it, the excess is exactly the amount past the cushion.
pub proof fn lemma_cushion(closing: int)
    ensures
        excess_spec(closing) == 0 <==> closing >= -OVER_CONTRIBUTION_BUFFER,
        closing < -OVER_CONTRIBUTION_BUFFER ==> excess_spec(closing) == -closing - OVER_CONTRIBUTION_BUFFER,
        excess_spec(closing) >= 0,
{
}


/// When each year appears once, the result does not depend on the order the
/// years are given in: any rearrangement of the input gives the same rows.
pub proof fn lemma_input_order_irrelevant(
    years1: Seq<YearData>,
    years2: Seq<YearData>,
    p: Seq<int>,
    opening: int,
    rows1: Seq<YearComputation>,
    rows2: Seq<YearComputation>,
)
    requires
        distinct_keys(years1.map_values(|d: YearData| d.year)),
        is_permutation(p, years1.len() as int),
        years2 == permute(years1, p),
        rows_match(rows1, years1, opening),
        rows_match(rows2, years2, opening),
    ensures
        rows1 == rows2,
{
    let keys1 = years1.map_values(|d: YearData| d.year);
    let keys2 = years2.map_values(|d: YearData| d.year);
    assert(keys2 =~= permute(keys1, p));
    lemma_sort_ignores_input_order(years1, keys1, years2, keys2, p);
    let s = by_year(years1);
    assert(s == by_year(years2));
    assert forall|i: int| 0 <= i < rows1.len() implies rows1[i] == rows2[i] by {
        assert(row_matches(rows1[i], s[i], carry_in(s, opening, i)));
        assert(row_matches(rows2[i], s[i], carry_in(s, opening, i)));
    }
    assert(rows1 =~= rows2);
}

} // verus!
