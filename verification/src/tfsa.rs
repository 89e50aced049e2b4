//! TFSA contribution-room rule engine.
//!
//! Every eligible year accrues that year's annual dollar amount of room;
//! unused room carries forward indefinitely. A withdrawal does not free room
//! in its own year: the amount is added back on January 1 of the following
//! year. There is no cushion: any excess is estimated to cost 1% per month.

use vstd::prelude::*;
use crate::order::{permute, stable_order, stable_order_by_year, occurs, lemma_sorted_by_stable_order,
    distinct_keys, is_permutation, lemma_sort_ignores_input_order};

verus! {

pub type Cents = i64;

/// TFSA monthly over-contribution penalty rate: 1% per month.
pub const MONTHLY_PENALTY_RATE_PERCENT: i64 = 1;

/// The published TFSA annual dollar limits, in whole dollars.
pub open spec fn limit_table_dollars(year: i32) -> Option<int> {
    if year == 2009 { Some(5_000) }
    else if year == 2010 { Some(5_000) }
    else if year == 2011 { Some(5_000) }
    else if year == 2012 { Some(5_000) }
    else if year == 2013 { Some(5_500) }
    else if year == 2014 { Some(5_500) }
    else if year == 2015 { Some(10_000) }
    else if year == 2016 { Some(5_500) }
    else if year == 2017 { Some(5_500) }
    else if year == 2018 { Some(5_500) }
    else if year == 2019 { Some(6_000) }
    else if year == 2020 { Some(6_000) }
    else if year == 2021 { Some(6_000) }
    else if year == 2022 { Some(6_000) }
    else if year == 2023 { Some(6_500) }
    else if year == 2024 { Some(7_000) }
    else if year == 2025 { Some(7_000) }
    else if year == 2026 { Some(7_000) }
    else { None }
}

/// The published limit for `year` in cents.
pub open spec fn limit_table_cents(year: i32) -> Option<Cents> {
    match limit_table_dollars(year) {
        Some(d) => Some((d * 100) as Cents),
        None => None,
    }
}

/// The latest year of the table.
pub open spec fn latest_table_year() -> i32 {
    2026
}

/// The limit of the latest year of the table, in cents.
pub open spec fn latest_limit_cents() -> Cents {
    limit_table_cents(latest_table_year()).unwrap()
}

/// `latest_table_year` is the greatest year the table covers.
pub proof fn lemma_latest_table_year_is_last()
    ensures
        limit_table_dollars(latest_table_year()) is Some,
        forall|y: i32| y > latest_table_year() ==> limit_table_dollars(y) is None,
{
}

/// The table holds the published annual limits: $5,000 for 2009-2012,
/// $5,500 for 2013-2014, $10,000 for 2015, $5,500 for 2016-2018, $6,000 for
/// 2019-2022, $6,500 for 2023 and $7,000 for 2024-2026; no other year has a
/// figure.
pub proof fn lemma_published_limits()
    ensures
        forall|y: i32| 2009 <= y <= 2012 ==> #[trigger] limit_table_cents(y) == Some(5_000_00i64),
        forall|y: i32| 2013 <= y <= 2014 ==> #[trigger] limit_table_cents(y) == Some(5_500_00i64),
        limit_table_cents(2015) == Some(10_000_00i64),
        forall|y: i32| 2016 <= y <= 2018 ==> #[trigger] limit_table_cents(y) == Some(5_500_00i64),
        forall|y: i32| 2019 <= y <= 2022 ==> #[trigger] limit_table_cents(y) == Some(6_000_00i64),
        limit_table_cents(2023) == Some(6_500_00i64),
        forall|y: i32| 2024 <= y <= 2026 ==> #[trigger] limit_table_cents(y) == Some(7_000_00i64),
        forall|y: i32| (y < 2009 || y > 2026) ==> #[trigger] limit_table_cents(y) is None,
{
}

fn table_dollars(year: i32) -> (r: Option<i64>)
    ensures
        match r {
            Some(d) => limit_table_dollars(year) == Some(d as int),
            None => limit_table_dollars(year) is None,
        },
{
    match year {
        2009 => Some(5_000),
        2010 => Some(5_000),
        2011 => Some(5_000),
        2012 => Some(5_000),
        2013 => Some(5_500),
        2014 => Some(5_500),
        2015 => Some(10_000),
        2016 => Some(5_500),
        2017 => Some(5_500),
        2018 => Some(5_500),
        2019 => Some(6_000),
        2020 => Some(6_000),
        2021 => Some(6_000),
        2022 => Some(6_000),
        2023 => Some(6_500),
        2024 => Some(7_000),
        2025 => Some(7_000),
        2026 => Some(7_000),
        _ => None,
    }
}

/// The published TFSA annual limit for `year` in cents, or `None` when there
/// is no figure for that year yet.
pub fn annual_dollar_limit(year: i32) -> (r: Option<Cents>)
    ensures
        r == limit_table_cents(year),
{
    match table_dollars(year) {
        Some(dollars) => Some(dollars * 100),
        None => None,
    }
}

/// The most recent published limit, in cents: the estimate used for years
/// beyond the table.
pub fn latest_known_limit() -> (r: Cents)
    ensures
        r == latest_limit_cents(),
{
    match annual_dollar_limit(2026) {
        Some(limit) => limit,
        None => 0,
    }
}

/// Per-year inputs.
#[derive(Debug, Clone, Copy, PartialEq, Eq, Structural)]
pub struct YearData {
    pub year: i32,
    /// Whether room accrues this year.
    pub eligible: bool,
    pub contribution: Cents,
    pub withdrawal: Cents,
}

/// Computed room picture for a single year.
#[derive(Debug, Clone, Copy, PartialEq, Eq, Structural)]
pub struct YearComputation {
    pub year: i32,
    /// New room accrued this year (0 if not eligible).
    pub new_room: Cents,
    /// Room added back from the prior year's withdrawals.
    pub withdrawals_readded: Cents,
    /// Unused room carried in.
    pub opening_room: Cents,
    /// `opening_room + new_room + withdrawals_readded`.
    pub available_room: Cents,
    pub contribution: Cents,
    /// Amount withdrawn this year (frees room only next year).
    pub withdrawal: Cents,
    /// Unused room carried out; negative means cumulative over-contribution.
    pub closing_room: Cents,
    /// Cumulative over-contribution (0 within room; there is no cushion).
    pub over_contribution: Cents,
    /// Penalty for one month on the excess (1%).
    pub estimated_monthly_penalty: Cents,
    /// True when the year's limit was estimated from the latest known one.
    pub dollar_limit_missing: bool,
}

pub open spec fn max_int(a: int, b: int) -> int {
    if a >= b { a } else { b }
}

pub open spec fn in_i64(x: int) -> bool {
    i64::MIN <= x <= i64::MAX
}

/// Room a year accrues.
pub open spec fn year_room(d: YearData) -> int {
    if d.eligible {
        match limit_table_cents(d.year) {
            Some(limit) => limit as int,
            None => latest_limit_cents() as int,
        }
    } else {
        0
    }
}

/// Whether the year's room was estimated.
pub open spec fn year_limit_missing(d: YearData) -> bool {
    d.eligible && limit_table_cents(d.year) is None
}

/// The years in processing order: ascending by year, ties in input order.
pub open spec fn by_year(years: Seq<YearData>) -> Seq<YearData> {
    permute(years, stable_order(years.map_values(|d: YearData| d.year)))
}

/// Unused room carried into position `i` of the ordered years `s`.
pub open spec fn carry_in(s: Seq<YearData>, opening: int, i: int) -> int
    decreases i,
{
    if i <= 0 {
        opening
    } else {
        carry_in(s, opening, i - 1) + year_room(s[i - 1]) + readded_in(s, i - 1)
            - s[i - 1].contribution
    }
}

/// Withdrawals of the preceding position, re-added at position `i`.
pub open spec fn readded_in(s: Seq<YearData>, i: int) -> int {
    if i <= 0 { 0 } else { s[i - 1].withdrawal as int }
}

/// Every intermediate value of one year's computation stays within `i64`.
pub open spec fn step_fits(d: YearData, carry: int, readded: int) -> bool {
    let closing = carry + year_room(d) + readded - d.contribution;
    &&& in_i64(carry + year_room(d))
    &&& in_i64(carry + year_room(d) + readded)
    &&& in_i64(closing)
    &&& in_i64(-closing)
}

/// The whole computation stays within `i64`.
pub open spec fn computation_fits(years: Seq<YearData>, opening: int) -> bool {
    let s = by_year(years);
    forall|i: int|
        0 <= i < s.len() ==> step_fits(#[trigger] s[i], carry_in(s, opening, i), readded_in(s, i))
}

/// `r` is the row computed for `d` with `carry` room carried in and `readded`
/// withdrawals re-added.
pub open spec fn row_matches(r: YearComputation, d: YearData, carry: int, readded: int) -> bool {
    let available = carry + year_room(d) + readded;
    let closing = available - d.contribution;
    &&& r.year == d.year
    &&& r.new_room == year_room(d)
    &&& r.withdrawals_readded == readded
    &&& r.opening_room == carry
    &&& r.available_room == available
    &&& r.contribution == d.contribution
    &&& r.withdrawal == d.withdrawal
    &&& r.closing_room == closing
    &&& r.over_contribution == max_int(-closing, 0)
    &&& r.estimated_monthly_penalty == max_int(-closing, 0) * MONTHLY_PENALTY_RATE_PERCENT / 100
    &&& r.dollar_limit_missing == year_limit_missing(d)
}

/// The rows of the computation for these inputs.
pub open spec fn rows_match(rows: Seq<YearComputation>, years: Seq<YearData>, opening: int) -> bool {
    let s = by_year(years);
    &&& rows.len() == s.len()
    &&& forall|i: int|
        0 <= i < s.len() ==> row_matches(
            #[trigger] rows[i],
            s[i],
            carry_in(s, opening, i),
            readded_in(s, i),
        )
}

/// The years in processing order: ascending by year, ties in input order.
fn in_year_order(years: &[YearData]) -> (sorted: Vec<YearData>)
    ensures
        sorted@ == by_year(years@),
        sorted@.len() == years@.len(),
{
    let n = years.len();
    let mut keys: Vec<i32> = Vec::new();
    let mut i: usize = 0;
    while i < n
        invariant
            n == years@.len(),
            i <= n,
            keys@ == years@.take(i as int).map_values(|d: YearData| d.year),
        decreases n - i,
    {
        keys.push(years[i].year);
        i = i + 1;
        proof {
            assert(years@.take(i as int) =~= years@.take(i - 1).push(years@[i - 1]));
            assert(keys@ =~= years@.take(i as int).map_values(|d: YearData| d.year));
        }
    }
    proof {
        assert(years@.take(n as int) =~= years@);
    }
    let order = stable_order_by_year(&keys);
    let ghost s = by_year(years@);
    proof {
        let o = order@.map_values(|x: usize| x as int);
        assert(keys@ == years@.map_values(|d: YearData| d.year));
        assert forall|j: int| 0 <= j < n implies 0 <= #[trigger] order@[j] < n && s[j]
            == years@[order@[j] as int] by {
            assert(o[j] == order@[j] as int);
        }
    }
    let mut out: Vec<YearData> = Vec::new();
    let mut k: usize = 0;
    while k < n
        invariant
            n == years@.len(),
            k <= n,
            s == by_year(years@),
            s.len() == n,
            order@.len() == n,
            forall|j: int| 0 <= j < n ==> 0 <= #[trigger] order@[j] < n && s[j] == years@[order@[j] as int],
            out@ == s.take(k as int),
        decreases n - k,
    {
        out.push(years[order[k]]);
        k = k + 1;
        proof {
            assert(out@ =~= s.take(k as int));
        }
    }
    proof {
        assert(s.take(n as int) =~= s);
    }
    out
}

/// Run the multi-year computation. `opening_room` is unused room carried in
/// before the earliest year. Years are processed in ascending order.
pub fn compute(years: &[YearData], opening_room: Cents) -> (out: Vec<YearComputation>)
    requires
        computation_fits(years@, opening_room as int),
    ensures
        rows_match(out@, years@, opening_room as int),
{
    let sorted = in_year_order(years);
    let n = sorted.len();
    let ghost s = by_year(years@);
    let ghost opening = opening_room as int;

    let mut carry = opening_room;
    let mut prev_withdrawal: Cents = 0;
    let mut out: Vec<YearComputation> = Vec::new();
    let mut k: usize = 0;
    while k < n
        invariant
            n == years@.len(),
            k <= n,
            s == by_year(years@),
            s.len() == n,
            sorted@ == s,
            computation_fits(years@, opening),
            carry as int == carry_in(s, opening, k as int),
            prev_withdrawal as int == readded_in(s, k as int),
            out@.len() == k,
            forall|j: int|
                0 <= j < k ==> row_matches(
                    #[trigger] out@[j],
                    s[j],
                    carry_in(s, opening, j),
                    readded_in(s, j),
                ),
        decreases n - k,
    {
        let data = sorted[k];
        assert(step_fits(s[k as int], carry_in(s, opening, k as int), readded_in(s, k as int)));
        let (new_room, limit_missing) = if data.eligible {
            match annual_dollar_limit(data.year) {
                Some(limit) => (limit, false),
                None => (latest_known_limit(), true),
            }
        } else {
            (0, false)
        };
        let withdrawals_readded = prev_withdrawal;
        let opening_room = carry;
        let available_room = opening_room + new_room + withdrawals_readded;
        let closing_room = available_room - data.contribution;
        let over = if -closing_room > 0 { -closing_room } else { 0 };
        let penalty = over * MONTHLY_PENALTY_RATE_PERCENT / 100;
        out.push(YearComputation {
            year: data.year,
            new_room,
            withdrawals_readded,
            opening_room,
            available_room,
            contribution: data.contribution,
            withdrawal: data.withdrawal,
            closing_room,
            over_contribution: over,
            estimated_monthly_penalty: penalty,
            dollar_limit_missing: limit_missing,
        });
        carry = closing_room;
        prev_withdrawal = data.withdrawal;
        k = k + 1;
    }
    out
}


/// Run the computation when every value stays within `i64`, as `compute`
/// does; `None` on the inputs where a value would leave that range.
#[verifier::rlimit(50)]
#[verifier::spinoff_prover]
pub fn compute_checked(years: &[YearData], opening_room: Cents) -> (r: Option<Vec<YearComputation>>)
    ensures
        r is Some <==> computation_fits(years@, opening_room as int),
        r matches Some(rows) ==> rows_match(rows@, years@, opening_room as int),
{
    let sorted = in_year_order(years);
    let n = sorted.len();
    let ghost s = by_year(years@);
    let ghost opening = opening_room as int;
    let lo: i128 = i64::MIN as i128;
    let hi: i128 = i64::MAX as i128;
    let mut carry: i128 = opening_room as i128;
    let mut prev_withdrawal: i128 = 0;
    let mut k: usize = 0;
    while k < n
        invariant
            s == by_year(years@),
            s.len() == n,
            sorted@ == s,
            k <= n,
            opening == opening_room as int,
            lo == i64::MIN,
            hi == i64::MAX,
            carry as int == carry_in(s, opening, k as int),
            prev_withdrawal as int == readded_in(s, k as int),
            in_i64(carry as int),
            in_i64(prev_withdrawal as int),
            forall|j: int| 0 <= j < k ==> step_fits(#[trigger] s[j], carry_in(s, opening, j), readded_in(s, j)),
        decreases n - k,
    {
        let d = sorted[k];
        let room: i128 = if d.eligible {
            match annual_dollar_limit(d.year) {
                Some(limit) => limit as i128,
                None => latest_known_limit() as i128,
            }
        } else {
            0
        };
        assert(d == s[k as int]);
        assert(room == year_room(d));
        let with_room = carry + room;
        let available = with_room + prev_withdrawal;
        let closing = available - d.contribution as i128;
        let fits = lo <= with_room && with_room <= hi && lo <= available && available <= hi && lo <= closing
            && closing <= hi && -closing <= hi;
        assert(fits == step_fits(d, carry as int, prev_withdrawal as int));
        if !fits {
            proof {
                assert(!step_fits(s[k as int], carry_in(s, opening, k as int), readded_in(s, k as int)));
                assert(!computation_fits(years@, opening));
            }
            return None;
        }
        carry = closing;
        prev_withdrawal = d.withdrawal as i128;
        k = k + 1;
    }
    Some(compute(years, opening_room))
}

/// Some row carries the year, contribution and withdrawal of `d`.
pub open spec fn has_row_for(rows: Seq<YearComputation>, d: YearData) -> bool {
    exists|i: int|
        0 <= i < rows.len() && #[trigger] rows[i].year == d.year && rows[i].contribution == d.contribution
            && rows[i].withdrawal == d.withdrawal
}

/// The rows come out in ascending year order, one row per input year, and
/// every input year has its row.
pub proof fn lemma_rows_in_year_order(years: Seq<YearData>, opening: int, rows: Seq<YearComputation>)
    requires
        rows_match(rows, years, opening),
    ensures
        rows.len() == years.len(),
        forall|i: int, j: int| 0 <= i < j < rows.len() ==> #[trigger] rows[i].year <= #[trigger] rows[j].year,
        forall|k: int| 0 <= k < years.len() ==> has_row_for(rows, #[trigger] years[k]),
{
    let keys = years.map_values(|d: YearData| d.year);
    let o = stable_order(keys);
    lemma_sorted_by_stable_order(keys);
    let s = by_year(years);
    assert forall|i: int, j: int| 0 <= i < j < rows.len() implies #[trigger] rows[i].year <= #[trigger] rows[j].year by {
        assert(keys[o[i]] <= keys[o[j]]);
        assert(s[i] == years[o[i]] && s[j] == years[o[j]]);
    }
    assert forall|k: int| 0 <= k < years.len() implies has_row_for(rows, #[trigger] years[k]) by {
        assert(occurs(o, k));
        let i = choose|i: int| 0 <= i < o.len() && #[trigger] o[i] == k;
        assert(s[i] == years[k]);
        assert(row_matches(rows[i], s[i], carry_in(s, opening, i), readded_in(s, i)));
    }
}

/// A withdrawal is added back to the room of the following year only: the
/// first year re-adds nothing, every later year re-adds exactly what was
/// withdrawn the year before, and a year's own withdrawal never enters its
/// own available or closing room.
pub proof fn lemma_withdrawal_readded_next_year(years: Seq<YearData>, opening: int, rows: Seq<YearComputation>)
    requires
        rows_match(rows, years, opening),
    ensures
        rows.len() > 0 ==> rows[0].withdrawals_readded == 0,
        forall|i: int| 0 < i < rows.len() ==> #[trigger] rows[i].withdrawals_readded == rows[i - 1].withdrawal,
        rows.len() > 0 ==> rows[0].opening_room == opening,
        forall|i: int| 0 < i < rows.len() ==> #[trigger] rows[i].opening_room == rows[i - 1].closing_room,
        forall|i: int| 0 <= i < rows.len() ==> #[trigger] rows[i].available_room
            == rows[i].opening_room + rows[i].new_room + rows[i].withdrawals_readded,
        forall|i: int| 0 <= i < rows.len() ==> #[trigger] rows[i].closing_room == rows[i].available_room - rows[i].contribution,
{
    let s = by_year(years);
    assert forall|i: int| 0 <= i < rows.len() implies row_matches(
        #[trigger] rows[i],
        s[i],
        carry_in(s, opening, i),
        readded_in(s, i),
    ) by {}
    assert forall|i: int| 0 < i < rows.len() implies #[trigger] rows[i].withdrawals_readded == rows[i - 1].withdrawal by {
        assert(row_matches(rows[i], s[i], carry_in(s, opening, i), readded_in(s, i)));
        assert(row_matches(rows[i - 1], s[i - 1], carry_in(s, opening, i - 1), readded_in(s, i - 1)));
    }
    assert forall|i: int| 0 < i < rows.len() implies #[trigger] rows[i].opening_room == rows[i - 1].closing_room by {
        assert(row_matches(rows[i], s[i], carry_in(s, opening, i), readded_in(s, i)));
        assert(row_matches(rows[i - 1], s[i - 1], carry_in(s, opening, i - 1), readded_in(s, i - 1)));
    }
}

/// New room plus withdrawals re-added minus contributions over the first `n` rows.
pub open spec fn net_room_added(rows: Seq<YearComputation>, n: int) -> int
    decreases n,
{
    if n <= 0 {
        0
    } else {
        net_room_added(rows, n - 1) + rows[n - 1].new_room + rows[n - 1].withdrawals_readded
            - rows[n - 1].contribution
    }
}

/// Withdrawals of the first `n` rows.
pub open spec fn withdrawn(rows: Seq<YearComputation>, n: int) -> int
    decreases n,
{
    if n <= 0 { 0 } else { withdrawn(rows, n - 1) + rows[n - 1].withdrawal }
}

/// A year's closing room is the opening room plus all room accrued so far,
/// plus everything withdrawn in earlier years, minus all contributions so far.
pub proof fn lemma_closing_is_running_total(years: Seq<YearData>, opening: int, rows: Seq<YearComputation>, i: int)
    requires
        rows_match(rows, years, opening),
        0 <= i < rows.len(),
    ensures
        rows[i].closing_room == opening + net_room_added(rows, i + 1),
        net_room_added(rows, i + 1) == net_room_added_without_readds(rows, i + 1) + withdrawn(rows, i),
    decreases i,
{
    lemma_withdrawal_readded_next_year(years, opening, rows);
    assert(rows[i].closing_room == rows[i].available_room - rows[i].contribution);
    assert(rows[i].available_room == rows[i].opening_room + rows[i].new_room + rows[i].withdrawals_readded);
    if i > 0 {
        lemma_closing_is_running_total(years, opening, rows, i - 1);
        assert(rows[i].opening_room == rows[i - 1].closing_room);
        assert(rows[i].withdrawals_readded == rows[i - 1].withdrawal);
    } else {
        assert(rows[0].opening_room == opening);
        assert(net_room_added(rows, 0) == 0);
        assert(withdrawn(rows, 0) == 0);
        assert(net_room_added_without_readds(rows, 0) == 0);
    }
    assert(net_room_added(rows, i + 1) == net_room_added(rows, i) + rows[i].new_room
        + rows[i].withdrawals_readded - rows[i].contribution);
    assert(net_room_added_without_readds(rows, i + 1) == net_room_added_without_readds(rows, i)
        + rows[i].new_room - rows[i].contribution);
}

/// New room minus contributions over the first `n` rows.
pub open spec fn net_room_added_without_readds(rows: Seq<YearComputation>, n: int) -> int
    decreases n,
{
    if n <= 0 {
        0
    } else {
        net_room_added_without_readds(rows, n - 1) + rows[n - 1].new_room - rows[n - 1].contribution
    }
}

/// There is no cushion: any negative closing room is over-contribution in full.
pub proof fn lemma_no_cushion(years: Seq<YearData>, opening: int, rows: Seq<YearComputation>)
    requires
        rows_match(rows, years, opening),
    ensures
        forall|i: int| 0 <= i < rows.len() ==> #[trigger] rows[i].over_contribution == max_int(-rows[i].closing_room, 0),
        forall|i: int| 0 <= i < rows.len() ==> (#[trigger] rows[i].over_contribution > 0 <==> rows[i].closing_room < 0),
        forall|i: int| 0 <= i < rows.len() ==> #[trigger] rows[i].estimated_monthly_penalty
            == rows[i].over_contribution / 100,
{
    let s = by_year(years);
    assert forall|i: int| 0 <= i < rows.len() implies row_matches(
        #[trigger] rows[i],
        s[i],
        carry_in(s, opening, i),
        readded_in(s, i),
    ) by {}
}

/// Each row's new room: nothing for an ineligible year; the published figure
/// for an eligible year of the table; and, beyond the table, $7,000 (the
/// latest figure), flagged as estimated.
pub proof fn lemma_row_room(years: Seq<YearData>, opening: int, rows: Seq<YearComputation>)
    requires
        rows_match(rows, years, opening),
    ensures
        forall|i: int| 0 <= i < rows.len() && !(#[trigger] by_year(years)[i]).eligible
            ==> rows[i].new_room == 0 && !rows[i].dollar_limit_missing,
        forall|i: int| 0 <= i < rows.len() && (#[trigger] by_year(years)[i]).eligible && limit_table_cents(
            by_year(years)[i].year,
        ) is Some ==> rows[i].new_room == limit_table_cents(by_year(years)[i].year).unwrap()
            && !rows[i].dollar_limit_missing,
        forall|i: int| 0 <= i < rows.len() && (#[trigger] by_year(years)[i]).eligible && limit_table_cents(
            by_year(years)[i].year,
        ) is None ==> rows[i].new_room == 7_000_00 && rows[i].dollar_limit_missing,
{
    let s = by_year(years);
    assert forall|i: int| 0 <= i < rows.len() implies row_matches(
        #[trigger] rows[i],
        s[i],
        carry_in(s, opening, i),
        readded_in(s, i),
    ) by {}
}

/// Only eligible years accrue room: the published amount for the year, or
/// the latest published amount (flagged) beyond the table.
pub proof fn lemma_room_from_eligibility(d: YearData)
    ensures
        !d.eligible ==> year_room(d) == 0 && !year_limit_missing(d),
        d.eligible && limit_table_cents(d.year) is Some ==> year_room(d) == limit_table_cents(d.year).unwrap() && !year_limit_missing(d),
        d.eligible && limit_table_cents(d.year) is None ==> year_room(d) == latest_limit_cents() && year_limit_missing(d),
        year_room(d) >= 0,
{
}


/// When each year appears once, the result does not depend on the order the
/// years are given in: any rearrangement of the input gives the same rows.
pub proof fn lemma_input_order_irrelevant(
    years1: Seq<YearData>,
    years2: Seq<YearData>,
    p: Seq<int>,
    opening: int,
    rows1: Seq<YearComputation>,
    rows2: Seq<YearComputation>,
)
    requires
        distinct_keys(years1.map_values(|d: YearData| d.year)),
        is_permutation(p, years1.len() as int),
        years2 == permute(years1, p),
        rows_match(rows1, years1, opening),
        rows_match(rows2, years2, opening),
    ensures
        rows1 == rows2,
{
    let keys1 = years1.map_values(|d: YearData| d.year);
    let keys2 = years2.map_values(|d: YearData| d.year);
    assert(keys2 =~= permute(keys1, p));
    lemma_sort_ignores_input_order(years1, keys1, years2, keys2, p);
    let s = by_year(years1);
    assert(s == by_year(years2));
    assert forall|i: int| 0 <= i < rows1.len() implies rows1[i] == rows2[i] by {
        assert(row_matches(rows1[i], s[i], carry_in(s, opening, i), readded_in(s, i)));
        assert(row_matches(rows2[i], s[i], carry_in(s, opening, i), readded_in(s, i)));
    }
    assert(rows1 =~= rows2);
}

} // verus!
