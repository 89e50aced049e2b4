//! The records the app stores, and the shaping of those records into the
//! per-year input of the rule engines.
//!
//! Reading and writing the database is the app's part; this module takes the
//! values read (income records, per-year totals keyed by year, user overrides
//! of the RRSP dollar limit) and decides which years each engine covers and
//! what each year's input is. Income earned in a year drives the following
//! year's RRSP room, so the RRSP row for year `Y` reads the income of `Y - 1`.

use vstd::prelude::*;
use std::collections::BTreeMap;
use crate::rrsp::{self, Cents};
use crate::{fhsa, tfsa};

verus! {

broadcast use vstd::std_specs::btree::group_btree_axioms;

/// A family member.
#[derive(Debug, Clone, PartialEq, Eq)]
pub struct Person {
    pub id: i64,
    pub name: String,
}

/// One person's earned income for a calendar year.
#[derive(Debug, Clone, Copy, PartialEq, Eq, Structural)]
pub struct AnnualIncome {
    pub year: i32,
    pub earned_income_cents: Cents,
    pub pension_adjustment_cents: Cents,
    /// True when this is an estimate for a year not yet final.
    pub is_estimate: bool,
}

/// A logged contribution.
#[derive(Debug, Clone)]
pub struct Contribution {
    pub id: i64,
    pub person_id: i64,
    pub account: String,
    pub tax_year: i32,
    pub date: String,
    pub amount_cents: Cents,
    pub note: String,
}

/// A logged withdrawal.
#[derive(Debug, Clone)]
pub struct Withdrawal {
    pub id: i64,
    pub person_id: i64,
    pub account: String,
    pub tax_year: i32,
    pub date: String,
    pub amount_cents: Cents,
    pub note: String,
}

/// The value recorded for `year` in `m`, or 0.
pub open spec fn amount_or_zero(m: Map<i32, Cents>, year: i32) -> Cents {
    if m.contains_key(year) { m[year] } else { 0 }
}

/// The effective RRSP dollar limit for a year: a user override wins, then the
/// built-in table, else unknown.
pub open spec fn resolved_limit(overrides: Map<i32, Cents>, year: i32) -> Option<Cents> {
    if overrides.contains_key(year) {
        Some(overrides[year])
    } else {
        rrsp::limit_table_cents(year)
    }
}

/// Resolve the effective RRSP dollar limit for a year: user override wins,
/// then the built-in table, else `None`.
pub fn resolve_rrsp_limit(overrides: &BTreeMap<i32, Cents>, year: i32) -> (r: Option<Cents>)
    ensures
        r == resolved_limit(overrides@, year),
{
    match overrides.get(&year) {
        Some(amount) => Some(*amount),
        None => rrsp::annual_dollar_limit(year),
    }
}

/// The value stored for `year`, or 0.
fn get_or_zero(m: &BTreeMap<i32, Cents>, year: i32) -> (r: Cents)
    ensures
        r == amount_or_zero(m@, year),
{
    match m.get(&year) {
        Some(amount) => *amount,
        None => 0,
    }
}

/// The least and greatest keys of `m`, or `None` when it is empty.
fn key_bounds(m: &BTreeMap<i32, Cents>) -> (r: Option<(i32, i32)>)
    ensures
        r is None <==> m@.dom().is_empty(),
        r matches Some(b) ==> m@.dom().contains(b.0) && m@.dom().contains(b.1) && forall|j: i32|
            m@.dom().contains(j) ==> b.0 <= j <= b.1,
{
    let mut bounds: Option<(i32, i32)> = None;
    for k in it: m.keys()
        invariant
            it.seq().unref().to_set() == m@.dom(),
            bounds is None <==> it.index() == 0,
            bounds matches Some(b) ==> m@.dom().contains(b.0) && m@.dom().contains(b.1) && (forall|i: int|
                0 <= i < it.index() ==> b.0 <= *#[trigger] it.seq()[i] <= b.1),
    {
        proof {
            assert(it.seq().unref()[it.index() as int] == *k);
            assert(it.seq().unref().contains(*k));
        }
        bounds = match bounds {
            Some(b) => Some((if *k < b.0 { *k } else { b.0 }, if *k > b.1 { *k } else { b.1 })),
            None => Some((*k, *k)),
        };
    }
    bounds
}


/// Income records by year; a later record for a year replaces an earlier one.
pub open spec fn income_by_year(incomes: Seq<AnnualIncome>) -> Map<i32, AnnualIncome>
    decreases incomes.len(),
{
    if incomes.len() == 0 {
        Map::empty()
    } else {
        income_by_year(incomes.drop_last()).insert(incomes.last().year, incomes.last())
    }
}

/// Year `y` is covered by RRSP data: it follows a year with an income record,
/// or has contributions.
pub open spec fn rrsp_covers(incomes: Seq<AnnualIncome>, contribs: Map<i32, Cents>, y: i32) -> bool {
    income_by_year(incomes).contains_key((y - 1) as i32) && y > i32::MIN || contribs.contains_key(y)
}

/// The RRSP engine input for `year`: the prior year's income and pension
/// adjustment (0 without a record), the year's contributions (0 without any),
/// and the resolved dollar limit.
pub open spec fn rrsp_row(
    incomes: Map<i32, AnnualIncome>,
    contribs: Map<i32, Cents>,
    overrides: Map<i32, Cents>,
    year: i32,
) -> rrsp::YearData {
    let prior = (year - 1) as i32;
    rrsp::YearData {
        year,
        prior_year_earned_income: if incomes.contains_key(prior) { incomes[prior].earned_income_cents } else { 0 },
        pension_adjustment: if incomes.contains_key(prior) { incomes[prior].pension_adjustment_cents } else { 0 },
        contribution: amount_or_zero(contribs, year),
        dollar_limit: resolved_limit(overrides, year),
    }
}

/// `rows` holds one RRSP input per year from the first covered year to the
/// last, in order; it holds nothing when no year is covered, or when the only
/// year covered is `i32::MAX` (which also marks "no year yet" while the span
/// is found).
pub open spec fn rrsp_rows_match(
    rows: Seq<rrsp::YearData>,
    incomes: Seq<AnnualIncome>,
    contribs: Map<i32, Cents>,
    overrides: Map<i32, Cents>,
) -> bool {
    &&& rows.len() == 0 <==> forall|y: i32| #[trigger] rrsp_covers(incomes, contribs, y) ==> y == i32::MAX
    &&& rows.len() > 0 ==> {
        let first = rows[0].year;
        let last = rows.last().year;
        &&& rrsp_covers(incomes, contribs, first)
        &&& rrsp_covers(incomes, contribs, last)
        &&& forall|y: i32| rrsp_covers(incomes, contribs, y) ==> first <= y <= last
        &&& rows.len() == last - first + 1
        &&& forall|i: int| 0 <= i < rows.len() ==> #[trigger] rows[i] == rrsp_row(
            income_by_year(incomes),
            contribs,
            overrides,
            (first + i) as i32,
        )
    }
}

proof fn lemma_income_years(incomes: Seq<AnnualIncome>)
    ensures
        forall|y: i32| #[trigger] income_by_year(incomes).contains_key(y) <==> exists|i: int|
            0 <= i < incomes.len() && (#[trigger] incomes[i]).year == y,
    decreases incomes.len(),
{
    if incomes.len() > 0 {
        let rest = incomes.drop_last();
        lemma_income_years(rest);
        assert forall|y: i32| #[trigger] income_by_year(incomes).contains_key(y) <==> exists|i: int|
            0 <= i < incomes.len() && (#[trigger] incomes[i]).year == y by {
            assert(income_by_year(incomes) == income_by_year(rest).insert(incomes.last().year, incomes.last()));
            if income_by_year(incomes).contains_key(y) && y != incomes.last().year {
                assert(income_by_year(rest).contains_key(y));
                let i = choose|i: int| 0 <= i < rest.len() && (#[trigger] rest[i]).year == y;
                assert(incomes[i] == rest[i]);
            }
            if exists|i: int| 0 <= i < incomes.len() && (#[trigger] incomes[i]).year == y {
                let i = choose|i: int| 0 <= i < incomes.len() && (#[trigger] incomes[i]).year == y;
                if i < incomes.len() - 1 {
                    assert(rest[i] == incomes[i]);
                    assert(income_by_year(rest).contains_key(y));
                }
            }
        }
    }
}

/// Shape one person's RRSP engine input: one entry per year from the first
/// year covered (the year after an income record, or a year with
/// contributions) to the last, each with the prior year's income, the year's
/// contributions and the resolved dollar limit. When the only year covered is
/// `i32::MAX`, there are no entries.
pub fn rrsp_year_data(
    incomes: &Vec<AnnualIncome>,
    contribs: &BTreeMap<i32, Cents>,
    overrides: &BTreeMap<i32, Cents>,
) -> (rows: Vec<rrsp::YearData>)
    requires
        forall|i: int| 0 <= i < incomes@.len() ==> (#[trigger] incomes@[i]).year < i32::MAX,
        !contribs@.contains_key(i32::MIN),
    ensures
        rrsp_rows_match(rows@, incomes@, contribs@, overrides@),
{
    proof {
        lemma_income_years(incomes@);
    }
    // Income records by year, the later record winning.
    let mut by_year: BTreeMap<i32, AnnualIncome> = BTreeMap::new();
    let mut i: usize = 0;
    while i < incomes.len()
        invariant
            i <= incomes@.len(),
            by_year@ == income_by_year(incomes@.take(i as int)),
        decreases incomes@.len() - i,
    {
        let income = incomes[i];
        by_year.insert(income.year, income);
        i = i + 1;
        proof {
            assert(incomes@.take(i as int).drop_last() =~= incomes@.take(i - 1));
        }
    }
    proof {
        assert(incomes@.take(incomes@.len() as int) =~= incomes@);
    }
    let ghost by_year_spec = income_by_year(incomes@);

    // The span of covered years.
    let mut span: Option<(i32, i32)> = None;
    let mut j: usize = 0;
    while j < incomes.len()
        invariant
            j <= incomes@.len(),
            forall|i: int| 0 <= i < incomes@.len() ==> (#[trigger] incomes@[i]).year < i32::MAX,
            span is None <==> j == 0,
            span matches Some(b) ==> (exists|i: int| 0 <= i < j && (#[trigger] incomes@[i]).year + 1 == b.0)
                && (exists|i: int| 0 <= i < j && (#[trigger] incomes@[i]).year + 1 == b.1)
                && forall|i: int| 0 <= i < j ==> b.0 <= (#[trigger] incomes@[i]).year + 1 <= b.1,
        decreases incomes@.len() - j,
    {
        let y = incomes[j].year + 1;
        span = match span {
            Some(b) => Some((if y < b.0 { y } else { b.0 }, if y > b.1 { y } else { b.1 })),
            None => Some((y, y)),
        };
        j = j + 1;
    }
    let span = match (span, key_bounds(contribs)) {
        (Some(a), Some(b)) => Some((if a.0 <= b.0 { a.0 } else { b.0 }, if a.1 >= b.1 { a.1 } else { b.1 })),
        (Some(a), None) => Some(a),
        (None, Some(b)) => Some(b),
        (None, None) => None,
    };
    let mut rows: Vec<rrsp::YearData> = Vec::new();
    match span {
        None => {
            assert(incomes@.len() == 0);
            assert(income_by_year(incomes@) =~= Map::<i32, AnnualIncome>::empty());
            assert forall|y: i32| #[trigger] rrsp_covers(incomes@, contribs@, y) implies y == i32::MAX by {
                assert(!contribs@.dom().contains(y));
            }
        },
        Some((first, last)) => {
            if first == i32::MAX {
                proof {
                    assert forall|y: i32| #[trigger] rrsp_covers(incomes@, contribs@, y) implies y == i32::MAX by {
                        if income_by_year(incomes@).contains_key((y - 1) as i32) && y > i32::MIN {
                            let i = choose|i: int| 0 <= i < incomes@.len() && (#[trigger] incomes@[i]).year == (y - 1) as i32;
                            assert(incomes@[i].year + 1 == y);
                        }
                    }
                }
                return rows;
            }
            proof {
                assert forall|y: i32| rrsp_covers(incomes@, contribs@, y) implies first <= y <= last by {
                    if income_by_year(incomes@).contains_key((y - 1) as i32) && y > i32::MIN {
                        let i = choose|i: int| 0 <= i < incomes@.len() && (#[trigger] incomes@[i]).year == (y - 1) as i32;
                        assert(incomes@[i].year + 1 == y);
                    }
                }
                if exists|i: int| 0 <= i < incomes@.len() && (#[trigger] incomes@[i]).year + 1 == first {
                    let i = choose|i: int| 0 <= i < incomes@.len() && (#[trigger] incomes@[i]).year + 1 == first;
                    assert(income_by_year(incomes@).contains_key(incomes@[i].year));
                }
                if exists|i: int| 0 <= i < incomes@.len() && (#[trigger] incomes@[i]).year + 1 == last {
                    let i = choose|i: int| 0 <= i < incomes@.len() && (#[trigger] incomes@[i]).year + 1 == last;
                    assert(income_by_year(incomes@).contains_key(incomes@[i].year));
                }
            }
            let mut year: i64 = first as i64;
            while year <= last as i64
                invariant
                    first <= last,
                    first as int <= year <= last as int + 1,
                    first > i32::MIN,
                    by_year@ == by_year_spec,
                    by_year_spec == income_by_year(incomes@),
                    rows@.len() == year - first,
                    forall|i: int| 0 <= i < rows@.len() ==> #[trigger] rows@[i] == rrsp_row(
                        by_year_spec,
                        contribs@,
                        overrides@,
                        (first + i) as i32,
                    ),
                decreases last as int + 1 - year,
            {
                let y = year as i32;
                let prior = by_year.get(&(y - 1));
                let row = rrsp::YearData {
                    year: y,
                    prior_year_earned_income: match prior { Some(p) => p.earned_income_cents, None => 0 },
                    pension_adjustment: match prior { Some(p) => p.pension_adjustment_cents, None => 0 },
                    contribution: get_or_zero(contribs, y),
                    dollar_limit: resolve_rrsp_limit(overrides, y),
                };
                rows.push(row);
                year = year + 1;
            }
            assert(rrsp_covers(incomes@, contribs@, first) && first != i32::MAX);
        },
    }
    rows
}


/// The income record kept for a year is the last one given for it.
proof fn lemma_last_record_wins(incomes: Seq<AnnualIncome>, k: int)
    requires
        0 <= k < incomes.len(),
        forall|j: int| k < j < incomes.len() ==> (#[trigger] incomes[j]).year != incomes[k].year,
    ensures
        income_by_year(incomes).contains_key(incomes[k].year),
        income_by_year(incomes)[incomes[k].year] == incomes[k],
    decreases incomes.len(),
{
    if k < incomes.len() - 1 {
        let rest = incomes.drop_last();
        assert forall|j: int| k < j < rest.len() implies (#[trigger] rest[j]).year != rest[k].year by {
            assert(rest[j] == incomes[j]);
        }
        lemma_last_record_wins(rest, k);
        assert(incomes.last() == incomes[incomes.len() - 1]);
    }
}

/// Each RRSP input row for year `Y` takes both its earned income and its
/// pension adjustment from the income record of year `Y - 1` (the last one
/// given for that year), and 0 for both when there is none; it takes the
/// contributions of year `Y` itself (0 when there are none).
pub proof fn lemma_rrsp_rows_read_prior_year(
    rows: Seq<rrsp::YearData>,
    incomes: Seq<AnnualIncome>,
    contribs: Map<i32, Cents>,
    overrides: Map<i32, Cents>,
)
    requires
        rrsp_rows_match(rows, incomes, contribs, overrides),
        !contribs.contains_key(i32::MIN),
    ensures
        forall|i: int, k: int|
            0 <= i < rows.len() && 0 <= k < incomes.len() && #[trigger] incomes[k].year == #[trigger] rows[i].year - 1
                && (forall|j: int| k < j < incomes.len() ==> (#[trigger] incomes[j]).year != incomes[k].year)
                ==> rows[i].prior_year_earned_income == incomes[k].earned_income_cents
                && rows[i].pension_adjustment == incomes[k].pension_adjustment_cents,
        forall|i: int|
            0 <= i < rows.len() && (forall|k: int| 0 <= k < incomes.len() ==> (#[trigger] incomes[k]).year
                != rows[i].year - 1) ==> #[trigger] rows[i].prior_year_earned_income == 0
                && rows[i].pension_adjustment == 0,
        forall|i: int|
            0 <= i < rows.len() ==> #[trigger] rows[i].contribution == if contribs.contains_key(rows[i].year) {
                contribs[rows[i].year]
            } else {
                0
            },
{
    lemma_income_years(incomes);
    if rows.len() > 0 {
        let first = rows[0].year;
        assert(rows[0] == rrsp_row(income_by_year(incomes), contribs, overrides, (first + 0) as i32));
        assert(first > i32::MIN);
        assert forall|i: int| 0 <= i < rows.len() implies #[trigger] rows[i].year > i32::MIN && rows[i] == rrsp_row(
            income_by_year(incomes),
            contribs,
            overrides,
            rows[i].year,
        ) by {
            assert(rows[i] == rrsp_row(income_by_year(incomes), contribs, overrides, (first + i) as i32));
        }
        assert forall|i: int, k: int|
            0 <= i < rows.len() && 0 <= k < incomes.len() && #[trigger] incomes[k].year == #[trigger] rows[i].year - 1
                && (forall|j: int| k < j < incomes.len() ==> (#[trigger] incomes[j]).year != incomes[k].year)
            implies rows[i].prior_year_earned_income == incomes[k].earned_income_cents
                && rows[i].pension_adjustment == incomes[k].pension_adjustment_cents by {
            lemma_last_record_wins(incomes, k);
            assert(rows[i] == rrsp_row(income_by_year(incomes), contribs, overrides, rows[i].year));
        }
        assert forall|i: int|
            0 <= i < rows.len() && (forall|k: int| 0 <= k < incomes.len() ==> (#[trigger] incomes[k]).year
                != rows[i].year - 1) implies #[trigger] rows[i].prior_year_earned_income == 0
                && rows[i].pension_adjustment == 0 by {
            assert(rows[i] == rrsp_row(income_by_year(incomes), contribs, overrides, rows[i].year));
            let prior = (rows[i].year - 1) as i32;
            if income_by_year(incomes).contains_key(prior) {
                let k = choose|k: int| 0 <= k < incomes.len() && (#[trigger] incomes[k]).year == prior;
                assert(incomes[k].year != rows[i].year - 1);
            }
        }
        assert forall|i: int| 0 <= i < rows.len() implies #[trigger] rows[i].contribution == if contribs.contains_key(rows[i].year) {
                contribs[rows[i].year]
            } else {
                0
            } by {
            assert(rows[i] == rrsp_row(income_by_year(incomes), contribs, overrides, rows[i].year));
        }
    }
}

/// `end` is the last year an account's data spans from `start`: the latest
/// of the current year, the start year, and every year with a transaction.
pub open spec fn is_span_end(
    contribs: Map<i32, Cents>,
    withdrawals: Map<i32, Cents>,
    start: i32,
    current_year: i32,
    end: i32,
) -> bool {
    &&& current_year <= end
    &&& start <= end
    &&& forall|y: i32| contribs.contains_key(y) ==> y <= end
    &&& forall|y: i32| withdrawals.contains_key(y) ==> y <= end
    &&& (end == current_year || end == start || contribs.contains_key(end) || withdrawals.contains_key(end))
}

/// The last year an account's data spans from `start`.
fn span_end(
    contribs: &BTreeMap<i32, Cents>,
    withdrawals: &BTreeMap<i32, Cents>,
    start: i32,
    current_year: i32,
) -> (end: i32)
    ensures
        is_span_end(contribs@, withdrawals@, start, current_year, end),
{
    let latest_txn = match (key_bounds(contribs), key_bounds(withdrawals)) {
        (Some(a), Some(b)) => if a.1 >= b.1 { a.1 } else { b.1 },
        (Some(a), None) => a.1,
        (None, Some(b)) => b.1,
        (None, None) => start,
    };
    let end = if current_year >= latest_txn { current_year } else { latest_txn };
    if end >= start { end } else { start }
}

/// The TFSA engine input for `year` when room accrues from `start`.
pub open spec fn tfsa_row(contribs: Map<i32, Cents>, withdrawals: Map<i32, Cents>, start: i32, year: i32) -> tfsa::YearData {
    tfsa::YearData {
        year,
        eligible: year >= start,
        contribution: amount_or_zero(contribs, year),
        withdrawal: amount_or_zero(withdrawals, year),
    }
}

/// The FHSA engine input for `year` when the account opened in `open_year`.
pub open spec fn fhsa_row(contribs: Map<i32, Cents>, withdrawals: Map<i32, Cents>, open_year: i32, year: i32) -> fhsa::YearData {
    fhsa::YearData {
        year,
        open: year >= open_year,
        contribution: amount_or_zero(contribs, year),
        withdrawal: amount_or_zero(withdrawals, year),
    }
}

/// Shape one person's TFSA engine input: nothing when no start year is set;
/// otherwise one entry per year from the start year through the latest of the
/// current year and every year with a transaction.
pub fn tfsa_year_data(
    start_year: Option<i32>,
    contribs: &BTreeMap<i32, Cents>,
    withdrawals: &BTreeMap<i32, Cents>,
    current_year: i32,
) -> (rows: Vec<tfsa::YearData>)
    ensures
        start_year is None ==> rows@.len() == 0,
        start_year matches Some(start) ==> {
            &&& rows@.len() > 0
            &&& rows@[0].year == start
            &&& is_span_end(contribs@, withdrawals@, start, current_year, rows@.last().year)
            &&& rows@.len() == rows@.last().year - start + 1
            &&& forall|i: int| 0 <= i < rows@.len() ==> #[trigger] rows@[i] == tfsa_row(
                contribs@,
                withdrawals@,
                start,
                (start + i) as i32,
            )
        },
{
    let mut rows: Vec<tfsa::YearData> = Vec::new();
    let start = match start_year {
        Some(s) => s,
        None => return rows,
    };
    let end = span_end(contribs, withdrawals, start, current_year);
    let mut year: i64 = start as i64;
    while year <= end as i64
        invariant
            start <= end,
            start as int <= year <= end as int + 1,
            rows@.len() == year - start,
            forall|i: int| 0 <= i < rows@.len() ==> #[trigger] rows@[i] == tfsa_row(
                contribs@,
                withdrawals@,
                start,
                (start + i) as i32,
            ),
        decreases end as int + 1 - year,
    {
        let y = year as i32;
        rows.push(tfsa::YearData {
            year: y,
            eligible: y >= start,
            contribution: get_or_zero(contribs, y),
            withdrawal: get_or_zero(withdrawals, y),
        });
        year = year + 1;
    }
    rows
}

/// Shape one person's FHSA engine input: nothing when no opening year is set;
/// otherwise one entry per year from the opening year through the latest of
/// the current year and every year with a transaction.
pub fn fhsa_year_data(
    open_year: Option<i32>,
    contribs: &BTreeMap<i32, Cents>,
    withdrawals: &BTreeMap<i32, Cents>,
    current_year: i32,
) -> (rows: Vec<fhsa::YearData>)
    ensures
        open_year is None ==> rows@.len() == 0,
        open_year matches Some(opened) ==> {
            &&& rows@.len() > 0
            &&& rows@[0].year == opened
            &&& is_span_end(contribs@, withdrawals@, opened, current_year, rows@.last().year)
            &&& rows@.len() == rows@.last().year - opened + 1
            &&& forall|i: int| 0 <= i < rows@.len() ==> #[trigger] rows@[i] == fhsa_row(
                contribs@,
                withdrawals@,
                opened,
                (opened + i) as i32,
            )
        },
{
    let mut rows: Vec<fhsa::YearData> = Vec::new();
    let opened = match open_year {
        Some(y) => y,
        None => return rows,
    };
    let end = span_end(contribs, withdrawals, opened, current_year);
    let mut year: i64 = opened as i64;
    while year <= end as i64
        invariant
            opened <= end,
            opened as int <= year <= end as int + 1,
            rows@.len() == year - opened,
            forall|i: int| 0 <= i < rows@.len() ==> #[trigger] rows@[i] == fhsa_row(
                contribs@,
                withdrawals@,
                opened,
                (opened + i) as i32,
            ),
        decreases end as int + 1 - year,
    {
        let y = year as i32;
        rows.push(fhsa::YearData {
            year: y,
            open: y >= opened,
            contribution: get_or_zero(contribs, y),
            withdrawal: get_or_zero(withdrawals, y),
        });
        year = year + 1;
    }
    rows
}


/// Every year of a TFSA span accrues room: the span starts at the start year
/// and runs year by year, so each entry is at or after it.
pub proof fn lemma_tfsa_span_all_eligible(
    rows: Seq<tfsa::YearData>,
    contribs: Map<i32, Cents>,
    withdrawals: Map<i32, Cents>,
    start: i32,
)
    requires
        rows.len() > 0,
        rows.len() == rows.last().year - start + 1,
        forall|i: int| 0 <= i < rows.len() ==> #[trigger] rows[i] == tfsa_row(contribs, withdrawals, start, (start + i) as i32),
    ensures
        forall|i: int| 0 <= i < rows.len() ==> (#[trigger] rows[i]).eligible && rows[i].year == start + i,
{
    assert forall|i: int| 0 <= i < rows.len() implies (#[trigger] rows[i]).eligible && rows[i].year == start + i by {
        assert(rows[rows.len() - 1] == tfsa_row(contribs, withdrawals, start, (start + rows.len() - 1) as i32));
        assert(start + i <= rows.last().year);
    }
}

/// Every year of an FHSA span has the account open: the span starts at the
/// opening year and runs year by year, so each entry is at or after it.
pub proof fn lemma_fhsa_span_all_open(
    rows: Seq<fhsa::YearData>,
    contribs: Map<i32, Cents>,
    withdrawals: Map<i32, Cents>,
    opened: i32,
)
    requires
        rows.len() > 0,
        rows.len() == rows.last().year - opened + 1,
        forall|i: int| 0 <= i < rows.len() ==> #[trigger] rows[i] == fhsa_row(contribs, withdrawals, opened, (opened + i) as i32),
    ensures
        forall|i: int| 0 <= i < rows.len() ==> (#[trigger] rows[i]).open && rows[i].year == opened + i,
{
    assert forall|i: int| 0 <= i < rows.len() implies (#[trigger] rows[i]).open && rows[i].year == opened + i by {
        assert(rows[rows.len() - 1] == fhsa_row(contribs, withdrawals, opened, (opened + rows.len() - 1) as i32));
        assert(opened + i <= rows.last().year);
    }
}

} // verus!
