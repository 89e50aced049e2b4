//! FHSA (First Home Savings Account) contribution-room rule engine.
//!
//! Room accrues from the year the account is opened: $8,000 a year, up to a
//! $40,000 lifetime total of granted room. Unused room carries forward, but the
//! carry-forward applied to a year is capped at $8,000 (a deficit carries in
//! full). There is no cushion: any excess is estimated to cost 1% per month.
//! Withdrawals do not restore room. Years past the participation window are
//! flagged, not blocked.

use vstd::prelude::*;
use crate::order::{permute, stable_order, stable_order_by_year, occurs, lemma_sorted_by_stable_order,
    distinct_keys, is_permutation, lemma_sort_ignores_input_order};

verus! {

pub type Cents = i64;

/// New room granted per open year: $8,000.
pub const ANNUAL_GRANT: Cents = 8_000_00;

/// Lifetime total of granted room: $40,000.
pub const LIFETIME_LIMIT: Cents = 40_000_00;

/// Most unused room applied from the prior year: $8,000.
pub const CARRYFORWARD_CAP: Cents = 8_000_00;

pub const MONTHLY_PENALTY_RATE_PERCENT: i64 = 1;

/// Years the account may participate before it must be closed or transferred.
pub const PARTICIPATION_YEARS: i32 = 15;

/// Per-year inputs.
#[derive(Debug, Clone, Copy, PartialEq, Eq, Structural)]
pub struct YearData {
    pub year: i32,
    /// Whether the account was open this year.
    pub open: bool,
    pub contribution: Cents,
    /// Recorded for information; does not affect room.
    pub withdrawal: Cents,
}

/// Computed room picture for a single year.
#[derive(Debug, Clone, Copy, PartialEq, Eq, Structural)]
pub struct YearComputation {
    pub year: i32,
    /// New room granted this year (0 before opening or once the lifetime grant is used up).
    pub new_room: Cents,
    /// Unused room carried in, after the cap.
    pub carryforward_in: Cents,
    /// `carryforward_in + new_room`.
    pub available_room: Cents,
    pub contribution: Cents,
    pub withdrawal: Cents,
    /// Unused room at year end; negative means over-contribution.
    pub closing_room: Cents,
    /// Contributions to date.
    pub lifetime_contributed: Cents,
    /// Lifetime grant not yet granted.
    pub lifetime_remaining: Cents,
    pub over_contribution: Cents,
    pub estimated_monthly_penalty: Cents,
    /// True once the year is past the participation window.
    pub past_participation_window: bool,
}

pub open spec fn max_int(a: int, b: int) -> int {
    if a >= b { a } else { b }
}

pub open spec fn min_int(a: int, b: int) -> int {
    if a <= b { a } else { b }
}

pub open spec fn in_i64(x: int) -> bool {
    i64::MIN <= x <= i64::MAX
}

/// A year grants room when the account is open and the year is not before
/// the opening year.
pub open spec fn grants_room(d: YearData, open_year: int) -> bool {
    d.open && d.year >= open_year
}

/// Room granted to a year given the room granted before it.
pub open spec fn grant_for(open: bool, granted: int) -> int {
    if open {
        max_int(min_int(ANNUAL_GRANT as int, LIFETIME_LIMIT - granted), 0)
    } else {
        0
    }
}

/// Running totals after the first `i` ordered years of an account opened in
/// `open_year`: (room granted,
/// contributions, unused room before the cap).
pub open spec fn totals_after(s: Seq<YearData>, open_year: int, i: int) -> (int, int, int)
    decreases i,
{
    if i <= 0 {
        (0, 0, 0)
    } else {
        let p = totals_after(s, open_year, i - 1);
        let d = s[i - 1];
        let granted = grant_for(grants_room(d, open_year), p.0);
        let carried = min_int(p.2, CARRYFORWARD_CAP as int);
        (p.0 + granted, p.1 + d.contribution, carried + granted - d.contribution)
    }
}

/// The years in processing order: ascending by year, ties in input order.
pub open spec fn by_year(years: Seq<YearData>) -> Seq<YearData> {
    permute(years, stable_order(years.map_values(|d: YearData| d.year)))
}

/// Every intermediate value of one year's computation stays within range.
pub open spec fn step_fits(d: YearData, totals: (int, int, int), open_year: int) -> bool {
    let granted = grant_for(grants_room(d, open_year), totals.0);
    let closing = min_int(totals.2, CARRYFORWARD_CAP as int) + granted - d.contribution;
    &&& in_i64(closing)
    &&& in_i64(-closing)
    &&& in_i64(totals.1 + d.contribution)
    &&& d.open ==> open_year + PARTICIPATION_YEARS <= i32::MAX
}

/// The whole computation stays within range.
pub open spec fn computation_fits(years: Seq<YearData>, open_year: int) -> bool {
    let s = by_year(years);
    forall|i: int| 0 <= i < s.len() ==> step_fits(#[trigger] s[i], totals_after(s, open_year, i), open_year)
}

/// `r` is the row computed for `d` with running totals `t` and the account
/// opened in `open_year`.
pub open spec fn row_matches(r: YearComputation, d: YearData, t: (int, int, int), open_year: int) -> bool {
    let granted = grant_for(grants_room(d, open_year), t.0);
    let carried = min_int(t.2, CARRYFORWARD_CAP as int);
    let closing = carried + granted - d.contribution;
    &&& r.year == d.year
    &&& r.new_room == granted
    &&& r.carryforward_in == carried
    &&& r.available_room == carried + granted
    &&& r.contribution == d.contribution
    &&& r.withdrawal == d.withdrawal
    &&& r.closing_room == closing
    &&& r.lifetime_contributed == t.1 + d.contribution
    &&& r.lifetime_remaining == max_int(LIFETIME_LIMIT - (t.0 + granted), 0)
    &&& r.over_contribution == max_int(-closing, 0)
    &&& r.estimated_monthly_penalty == max_int(-closing, 0) * MONTHLY_PENALTY_RATE_PERCENT / 100
    &&& r.past_participation_window == (d.open && d.year >= open_year + PARTICIPATION_YEARS)
}

/// The rows of the computation for these inputs.
pub open spec fn rows_match(rows: Seq<YearComputation>, years: Seq<YearData>, open_year: int) -> bool {
    let s = by_year(years);
    &&& rows.len() == s.len()
    &&& forall|i: int|
        0 <= i < s.len() ==> row_matches(#[trigger] rows[i], s[i], totals_after(s, open_year, i), open_year)
}

/// The room granted so far never exceeds the lifetime limit.
pub proof fn lemma_granted_within_lifetime(s: Seq<YearData>, open_year: int, i: int)
    requires
        0 <= i <= s.len(),
    ensures
        0 <= totals_after(s, open_year, i).0 <= LIFETIME_LIMIT,
    decreases i,
{
    if i > 0 {
        lemma_granted_within_lifetime(s, open_year, i - 1);
    }
}

/// The years in processing order: ascending by year, ties in input order.
fn in_year_order(years: &[YearData]) -> (sorted: Vec<YearData>)
    ensures
        sorted@ == by_year(years@),
        sorted@.len() == years@.len(),
{
    let n = years.len();
    let mut keys: Vec<i32> = Vec::new();
    let mut i: usize = 0;
    while i < n
        invariant
            n == years@.len(),
            i <= n,
            keys@ == years@.take(i as int).map_values(|d: YearData| d.year),
        decreases n - i,
    {
        keys.push(years[i].year);
        i = i + 1;
        proof {
            assert(years@.take(i as int) =~= years@.take(i - 1).push(years@[i - 1]));
            assert(keys@ =~= years@.take(i as int).map_values(|d: YearData| d.year));
        }
    }
    proof {
        assert(years@.take(n as int) =~= years@);
    }
    let order = stable_order_by_year(&keys);
    let ghost s = by_year(years@);
    proof {
        let o = order@.map_values(|x: usize| x as int);
        assert(keys@ == years@.map_values(|d: YearData| d.year));
        assert forall|j: int| 0 <= j < n implies 0 <= #[trigger] order@[j] < n && s[j]
            == years@[order@[j] as int] by {
            assert(o[j] == order@[j] as int);
        }
    }
    let mut out: Vec<YearData> = Vec::new();
    let mut k: usize = 0;
    while k < n
        invariant
            n == years@.len(),
            k <= n,
            s == by_year(years@),
            s.len() == n,
            order@.len() == n,
            forall|j: int| 0 <= j < n ==> 0 <= #[trigger] order@[j] < n && s[j] == years@[order@[j] as int],
            out@ == s.take(k as int),
        decreases n - k,
    {
        out.push(years[order[k]]);
        k = k + 1;
        proof {
            assert(out@ =~= s.take(k as int));
        }
    }
    proof {
        assert(s.take(n as int) =~= s);
    }
    out
}

/// Run the multi-year computation. `open_year` is the year the first FHSA was
/// opened. Years before `open_year` grant no room. Years are processed in
/// ascending order.
pub fn compute(years: &[YearData], open_year: i32) -> (out: Vec<YearComputation>)
    requires
        computation_fits(years@, open_year as int),
    ensures
        rows_match(out@, years@, open_year as int),
{
    let sorted = in_year_order(years);
    let n = sorted.len();
    let ghost s = by_year(years@);

    let mut granted_total: Cents = 0;
    let mut lifetime_contributed: Cents = 0;
    let mut carry: Cents = 0;
    let mut out: Vec<YearComputation> = Vec::new();
    let mut k: usize = 0;
    while k < n
        invariant
            n == years@.len(),
            k <= n,
            s == by_year(years@),
            s.len() == n,
            sorted@ == s,
            computation_fits(years@, open_year as int),
            (granted_total as int, lifetime_contributed as int, carry as int) == totals_after(s, open_year as int, k as int),
            out@.len() == k,
            forall|j: int|
                0 <= j < k ==> row_matches(#[trigger] out@[j], s[j], totals_after(s, open_year as int, j), open_year as int),
        decreases n - k,
    {
        let data = sorted[k];
        proof {
            lemma_granted_within_lifetime(s, open_year as int, k as int);
        }
        assert(step_fits(s[k as int], totals_after(s, open_year as int, k as int), open_year as int));
        let new_room = if data.open && data.year >= open_year {
            let left = LIFETIME_LIMIT - granted_total;
            let capped = if ANNUAL_GRANT <= left { ANNUAL_GRANT } else { left };
            if capped > 0 { capped } else { 0 }
        } else {
            0
        };
        let carryforward_in = if carry <= CARRYFORWARD_CAP { carry } else { CARRYFORWARD_CAP };
        let available_room = carryforward_in + new_room;
        let closing_room = available_room - data.contribution;

        granted_total = granted_total + new_room;
        lifetime_contributed = lifetime_contributed + data.contribution;

        let over = if -closing_room > 0 { -closing_room } else { 0 };
        let penalty = over * MONTHLY_PENALTY_RATE_PERCENT / 100;
        let remaining = LIFETIME_LIMIT - granted_total;
        out.push(YearComputation {
            year: data.year,
            new_room,
            carryforward_in,
            available_room,
            contribution: data.contribution,
            withdrawal: data.withdrawal,
            closing_room,
            lifetime_contributed,
            lifetime_remaining: if remaining > 0 { remaining } else { 0 },
            over_contribution: over,
            estimated_monthly_penalty: penalty,
            past_participation_window: data.open && data.year >= open_year + PARTICIPATION_YEARS,
        });
        carry = closing_room;
        k = k + 1;
    }
    out
}


/// Run the computation when every value stays within range, as `compute`
/// does; `None` on the inputs where a value would leave it.
pub fn compute_checked(years: &[YearData], open_year: i32) -> (r: Option<Vec<YearComputation>>)
    ensures
        r is Some <==> computation_fits(years@, open_year as int),
        r matches Some(rows) ==> rows_match(rows@, years@, open_year as int),
{
    let sorted = in_year_order(years);
    let n = sorted.len();
    let ghost s = by_year(years@);
    let lo: i128 = i64::MIN as i128;
    let hi: i128 = i64::MAX as i128;
    let mut granted: i128 = 0;
    let mut contributed: i128 = 0;
    let mut carry: i128 = 0;
    let mut k: usize = 0;
    while k < n
        invariant
            s == by_year(years@),
            s.len() == n,
            sorted@ == s,
            k <= n,
            lo == i64::MIN,
            hi == i64::MAX,
            (granted as int, contributed as int, carry as int) == totals_after(s, open_year as int, k as int),
            in_i64(carry as int),
            in_i64(contributed as int),
            forall|j: int| 0 <= j < k ==> step_fits(#[trigger] s[j], totals_after(s, open_year as int, j), open_year as int),
        decreases n - k,
    {
        let d = sorted[k];
        proof {
            lemma_granted_within_lifetime(s, open_year as int, k as int);
        }
        let new_room: i128 = if d.open && d.year >= open_year {
            let left = LIFETIME_LIMIT as i128 - granted;
            let capped = if (ANNUAL_GRANT as i128) <= left { ANNUAL_GRANT as i128 } else { left };
            if capped > 0 { capped } else { 0 }
        } else {
            0
        };
        let carried: i128 = if carry <= CARRYFORWARD_CAP as i128 { carry } else { CARRYFORWARD_CAP as i128 };
        let closing = carried + new_room - d.contribution as i128;
        let total = contributed + d.contribution as i128;
        let window_fits = !d.open || open_year <= i32::MAX - PARTICIPATION_YEARS;
        if closing < lo || closing > hi || -closing > hi || total < lo || total > hi || !window_fits {
            proof {
                assert(!step_fits(s[k as int], totals_after(s, open_year as int, k as int), open_year as int));
                assert(!computation_fits(years@, open_year as int));
            }
            return None;
        }
        granted = granted + new_room;
        contributed = total;
        carry = closing;
        k = k + 1;
    }
    Some(compute(years, open_year))
}

/// Some row carries the year, contribution and withdrawal of `d`.
pub open spec fn has_row_for(rows: Seq<YearComputation>, d: YearData) -> bool {
    exists|i: int|
        0 <= i < rows.len() && #[trigger] rows[i].year == d.year && rows[i].contribution == d.contribution
            && rows[i].withdrawal == d.withdrawal
}

/// The rows come out in ascending year order, one row per input year, and
/// every input year has its row.
pub proof fn lemma_rows_in_year_order(years: Seq<YearData>, open_year: int, rows: Seq<YearComputation>)
    requires
        rows_match(rows, years, open_year),
    ensures
        rows.len() == years.len(),
        forall|i: int, j: int| 0 <= i < j < rows.len() ==> #[trigger] rows[i].year <= #[trigger] rows[j].year,
        forall|k: int| 0 <= k < years.len() ==> has_row_for(rows, #[trigger] years[k]),
{
    let keys = years.map_values(|d: YearData| d.year);
    let o = stable_order(keys);
    lemma_sorted_by_stable_order(keys);
    let s = by_year(years);
    assert forall|i: int, j: int| 0 <= i < j < rows.len() implies #[trigger] rows[i].year <= #[trigger] rows[j].year by {
        assert(keys[o[i]] <= keys[o[j]]);
        assert(s[i] == years[o[i]] && s[j] == years[o[j]]);
    }
    assert forall|k: int| 0 <= k < years.len() implies has_row_for(rows, #[trigger] years[k]) by {
        assert(occurs(o, k));
        let i = choose|i: int| 0 <= i < o.len() && #[trigger] o[i] == k;
        assert(s[i] == years[k]);
        assert(row_matches(rows[i], s[i], totals_after(s, open_year, i), open_year));
    }
}

/// New room over the first `n` rows.
pub open spec fn granted_so_far(rows: Seq<YearComputation>, n: int) -> int
    decreases n,
{
    if n <= 0 { 0 } else { granted_so_far(rows, n - 1) + rows[n - 1].new_room }
}

/// Contributions over the first `n` rows.
pub open spec fn contributed_so_far(rows: Seq<YearComputation>, n: int) -> int
    decreases n,
{
    if n <= 0 { 0 } else { contributed_so_far(rows, n - 1) + rows[n - 1].contribution }
}

/// The $40,000 lifetime grant is never exceeded: the room granted up to and
/// including each year is at most $40,000, and the lifetime room remaining is
/// exactly what has not been granted. Lifetime contributions are the running
/// sum of contributions.
pub proof fn lemma_lifetime_limits(years: Seq<YearData>, open_year: int, rows: Seq<YearComputation>, i: int)
    requires
        rows_match(rows, years, open_year),
        0 <= i < rows.len(),
    ensures
        granted_so_far(rows, i + 1) == totals_after(by_year(years), open_year, i + 1).0,
        0 <= granted_so_far(rows, i + 1) <= LIFETIME_LIMIT,
        rows[i].lifetime_remaining == LIFETIME_LIMIT - granted_so_far(rows, i + 1),
        rows[i].lifetime_contributed == contributed_so_far(rows, i + 1),
    decreases i,
{
    let s = by_year(years);
    assert(row_matches(rows[i], s[i], totals_after(s, open_year, i), open_year));
    if i > 0 {
        lemma_lifetime_limits(years, open_year, rows, i - 1);
        assert(row_matches(rows[i - 1], s[i - 1], totals_after(s, open_year, i - 1), open_year));
    } else {
        assert(granted_so_far(rows, 0) == 0);
        assert(contributed_so_far(rows, 0) == 0);
    }
    lemma_granted_within_lifetime(s, open_year, i + 1);
    lemma_granted_within_lifetime(s, open_year, i);
}

/// Each year grants at most $8,000, applies at most $8,000 of carried room,
/// and so offers at most $16,000; years before the opening year, and years
/// in which the account is not open, grant nothing; the first year carries nothing in and each later year carries in the previous
/// closing room, capped.
pub proof fn lemma_annual_limits(years: Seq<YearData>, open_year: int, rows: Seq<YearComputation>)
    requires
        rows_match(rows, years, open_year),
    ensures
        forall|i: int| 0 <= i < rows.len() ==> 0 <= #[trigger] rows[i].new_room <= ANNUAL_GRANT,
        forall|i: int| 0 <= i < rows.len() ==> #[trigger] rows[i].carryforward_in <= CARRYFORWARD_CAP,
        forall|i: int| 0 <= i < rows.len() ==> #[trigger] rows[i].available_room <= ANNUAL_GRANT + CARRYFORWARD_CAP,
        forall|i: int| 0 <= i < rows.len() && #[trigger] rows[i].year < open_year ==> rows[i].new_room == 0,
        forall|i: int| 0 <= i < rows.len() && !(#[trigger] by_year(years)[i]).open ==> rows[i].new_room == 0,
        rows.len() > 0 ==> rows[0].carryforward_in == 0,
        forall|i: int| 0 < i < rows.len() ==> #[trigger] rows[i].carryforward_in
            == min_int(rows[i - 1].closing_room as int, CARRYFORWARD_CAP as int),
{
    let s = by_year(years);
    assert forall|i: int| 0 <= i < rows.len() implies row_matches(#[trigger] rows[i], s[i], totals_after(s, open_year, i), open_year) by {}
    assert forall|i: int| 0 < i < rows.len() implies #[trigger] rows[i].carryforward_in
        == min_int(rows[i - 1].closing_room as int, CARRYFORWARD_CAP as int) by {
        assert(row_matches(rows[i], s[i], totals_after(s, open_year, i), open_year));
        assert(row_matches(rows[i - 1], s[i - 1], totals_after(s, open_year, i - 1), open_year));
    }
    if rows.len() > 0 {
        assert(row_matches(rows[0], s[0], totals_after(s, open_year, 0), open_year));
    }
}

/// There is no cushion: each year closes with its available room less its
/// contributions, the whole of a negative closing room is over-contribution,
/// and the monthly penalty is 1% of it.
pub proof fn lemma_no_cushion(years: Seq<YearData>, open_year: int, rows: Seq<YearComputation>)
    requires
        rows_match(rows, years, open_year),
    ensures
        forall|i: int| 0 <= i < rows.len() ==> #[trigger] rows[i].closing_room == rows[i].available_room
            - rows[i].contribution,
        forall|i: int| 0 <= i < rows.len() ==> #[trigger] rows[i].over_contribution == if rows[i].closing_room < 0 {
            -rows[i].closing_room
        } else {
            0
        },
        forall|i: int| 0 <= i < rows.len() ==> #[trigger] rows[i].estimated_monthly_penalty
            == rows[i].over_contribution / 100,
{
    let s = by_year(years);
    assert forall|i: int| 0 <= i < rows.len() implies row_matches(#[trigger] rows[i], s[i], totals_after(s, open_year, i), open_year) by {}
}

/// The two inputs agree in everything but their withdrawals.
pub open spec fn same_but_withdrawals(a: Seq<YearData>, b: Seq<YearData>) -> bool {
    &&& a.len() == b.len()
    &&& forall|i: int| 0 <= i < a.len() ==> (#[trigger] a[i]).year == b[i].year && a[i].open == b[i].open
        && a[i].contribution == b[i].contribution
}

proof fn lemma_totals_ignore_withdrawals(a: Seq<YearData>, b: Seq<YearData>, open_year: int, i: int)
    requires
        same_but_withdrawals(a, b),
        0 <= i <= a.len(),
    ensures
        totals_after(a, open_year, i) == totals_after(b, open_year, i),
    decreases i,
{
    if i > 0 {
        lemma_totals_ignore_withdrawals(a, b, open_year, i - 1);
        assert(a[i - 1].open == b[i - 1].open && a[i - 1].contribution == b[i - 1].contribution);
    }
}

/// Withdrawals do not restore room: two inputs that differ only in their
/// withdrawals give rows that differ only in the withdrawal recorded.
pub proof fn lemma_withdrawals_do_not_restore_room(
    years1: Seq<YearData>,
    years2: Seq<YearData>,
    open_year: int,
    rows1: Seq<YearComputation>,
    rows2: Seq<YearComputation>,
)
    requires
        same_but_withdrawals(years1, years2),
        rows_match(rows1, years1, open_year),
        rows_match(rows2, years2, open_year),
    ensures
        rows1.len() == rows2.len(),
        forall|i: int| 0 <= i < rows1.len() ==> (YearComputation { withdrawal: 0, ..#[trigger] rows1[i] })
            == (YearComputation { withdrawal: 0, ..rows2[i] }),
{
    let k1 = years1.map_values(|d: YearData| d.year);
    let k2 = years2.map_values(|d: YearData| d.year);
    assert(k1 =~= k2);
    let o = stable_order(k1);
    lemma_sorted_by_stable_order(k1);
    let s1 = by_year(years1);
    let s2 = by_year(years2);
    assert(same_but_withdrawals(s1, s2)) by {
        assert forall|i: int| 0 <= i < s1.len() implies (#[trigger] s1[i]).year == s2[i].year && s1[i].open
            == s2[i].open && s1[i].contribution == s2[i].contribution by {
            assert(s1[i] == years1[o[i]] && s2[i] == years2[o[i]]);
        }
    }
    assert forall|i: int| 0 <= i < rows1.len() implies (YearComputation { withdrawal: 0, ..#[trigger] rows1[i] })
        == (YearComputation { withdrawal: 0, ..rows2[i] }) by {
        lemma_totals_ignore_withdrawals(s1, s2, open_year, i);
        assert(row_matches(rows1[i], s1[i], totals_after(s1, open_year, i), open_year));
        assert(row_matches(rows2[i], s2[i], totals_after(s2, open_year, i), open_year));
    }
}


/// When each year appears once, the result does not depend on the order the
/// years are given in: any rearrangement of the input gives the same rows.
pub proof fn lemma_input_order_irrelevant(
    years1: Seq<YearData>,
    years2: Seq<YearData>,
    p: Seq<int>,
    open_year: int,
    rows1: Seq<YearComputation>,
    rows2: Seq<YearComputation>,
)
    requires
        distinct_keys(years1.map_values(|d: YearData| d.year)),
        is_permutation(p, years1.len() as int),
        years2 == permute(years1, p),
        rows_match(rows1, years1, open_year),
        rows_match(rows2, years2, open_year),
    ensures
        rows1 == rows2,
{
    let keys1 = years1.map_values(|d: YearData| d.year);
    let keys2 = years2.map_values(|d: YearData| d.year);
    assert(keys2 =~= permute(keys1, p));
    lemma_sort_ignores_input_order(years1, keys1, years2, keys2, p);
    let s = by_year(years1);
    assert(s == by_year(years2));
    assert forall|i: int| 0 <= i < rows1.len() implies rows1[i] == rows2[i] by {
        assert(row_matches(rows1[i], s[i], totals_after(s, open_year, i), open_year));
        assert(row_matches(rows2[i], s[i], totals_after(s, open_year, i), open_year));
    }
    assert(rows1 =~= rows2);
}

} // verus!
