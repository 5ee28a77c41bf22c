//! The monthly breakdown: net income per month, expenses per category across months, and the
//! expense categories of each month ranked by share.
use vstd::prelude::*;

use crate::date::Date;
use crate::plots::extraction::{
    movements, names_view, positions, select_movements, top_categories, Movement, PlotError,
    Share,
};
use crate::ranking::is_top;
use crate::model::registry::Registry;
use crate::sums::{
    group_by_date, is_date_grouping, is_max, is_min, lemma_occurs_witness, min_max, occurs, total,
};
use crate::model::transaction::{
    all_categories, lemma_category_index, TransactionAccountName, TransactionCategory,
    CATEGORY_COUNT,
};

verus! {

/// Each movement as a `(month, amount)` pair, the month given by its first day.
pub open spec fn monthly(ms: Seq<Movement>) -> Seq<(Date, i64)> {
    ms.map_values(|m: Movement| (m.date.spec_month_start(), m.amount))
}

/// The `(month, amount)` pairs of the expenses of category `c`.
pub open spec fn category_months(ms: Seq<Movement>, c: TransactionCategory) -> Seq<(Date, i64)>
    decreases ms.len(),
{
    if ms.len() == 0 {
        Seq::empty()
    } else if ms.last().amount < 0 && ms.last().category == c {
        category_months(ms.drop_last(), c).push((ms.last().date.spec_month_start(), ms.last().amount))
    } else {
        category_months(ms.drop_last(), c)
    }
}

/// The `(category, amount)` pairs of the expenses of the month that starts on `month`.
pub open spec fn month_categories(ms: Seq<Movement>, month: Date) -> Seq<(TransactionCategory, i64)>
    decreases ms.len(),
{
    if ms.len() == 0 {
        Seq::empty()
    } else if ms.last().amount < 0 && ms.last().date.spec_month_start() == month {
        month_categories(ms.drop_last(), month).push((ms.last().category, ms.last().amount))
    } else {
        month_categories(ms.drop_last(), month)
    }
}

/// The categories among the first `k` of the declaration order that have an expense in `ms`,
/// in that order.
pub open spec fn spent_categories(ms: Seq<Movement>, k: int) -> Seq<TransactionCategory>
    decreases k,
{
    if k <= 0 {
        Seq::empty()
    } else if category_months(ms, all_categories()[k - 1]).len() > 0 {
        spent_categories(ms, k - 1).push(all_categories()[k - 1])
    } else {
        spent_categories(ms, k - 1)
    }
}

proof fn lemma_category_month_in_months(ms: Seq<Movement>, c: TransactionCategory, d: Date)
    requires
        occurs(category_months(ms, c), d),
    ensures
        occurs(monthly(ms), d),
    decreases ms.len(),
{
    if ms.len() > 0 {
        let rest = ms.drop_last();
        assert(monthly(ms).drop_last() =~= monthly(rest));
        if occurs(category_months(rest, c), d) {
            lemma_category_month_in_months(rest, c, d);
        } else {
            assert(ms.last().amount < 0 && ms.last().category == c);
            assert(category_months(ms, c).drop_last() =~= category_months(rest, c));
            assert(monthly(ms)[ms.len() - 1].0 == ms.last().date.spec_month_start());
        }
    }
}

proof fn lemma_spent_has_expense(ms: Seq<Movement>, c: TransactionCategory)
    requires
        category_months(ms, c).len() > 0,
    ensures
        exists|i: int| 0 <= i < ms.len() && #[trigger] ms[i].amount < 0,
    decreases ms.len(),
{
    let rest = ms.drop_last();
    if category_months(rest, c).len() > 0 {
        lemma_spent_has_expense(rest, c);
        let i = choose|i: int| 0 <= i < rest.len() && #[trigger] rest[i].amount < 0;
        assert(ms[i].amount < 0);
    } else {
        assert(ms[ms.len() - 1].amount < 0);
    }
}

proof fn lemma_expense_is_spent(ms: Seq<Movement>, i: int)
    requires
        0 <= i < ms.len(),
        ms[i].amount < 0,
    ensures
        category_months(ms, ms[i].category).len() > 0,
    decreases ms.len(),
{
    if i < ms.len() - 1 {
        lemma_expense_is_spent(ms.drop_last(), i);
    }
}

fn month_pairs(ms: &Vec<Movement>) -> (r: Vec<(Date, i64)>)
    ensures
        r@ == monthly(ms@),
{
    let mut r: Vec<(Date, i64)> = Vec::new();
    let mut i: usize = 0;
    while i < ms.len()
        invariant
            i <= ms@.len(),
            r@ == monthly(ms@.take(i as int)),
        decreases ms@.len() - i,
    {
        r.push((ms[i].date.month_start(), ms[i].amount));
        proof {
            assert(monthly(ms@.take(i as int + 1)) =~= monthly(ms@.take(i as int)).push(
                (ms@[i as int].date.spec_month_start(), ms@[i as int].amount),
            ));
        }
        i = i + 1;
    }
    proof {
        assert(ms@.take(ms@.len() as int) =~= ms@);
    }
    r
}

fn category_month_pairs(ms: &Vec<Movement>, c: TransactionCategory) -> (r: Vec<(Date, i64)>)
    ensures
        r@ == category_months(ms@, c),
{
    let mut r: Vec<(Date, i64)> = Vec::new();
    let mut i: usize = 0;
    while i < ms.len()
        invariant
            i <= ms@.len(),
            r@ == category_months(ms@.take(i as int), c),
        decreases ms@.len() - i,
    {
        proof {
            assert(ms@.take(i as int + 1).drop_last() =~= ms@.take(i as int));
        }
        if ms[i].amount < 0 && ms[i].category == c {
            r.push((ms[i].date.month_start(), ms[i].amount));
        }
        i = i + 1;
    }
    proof {
        assert(ms@.take(ms@.len() as int) =~= ms@);
    }
    r
}

fn month_category_pairs(ms: &Vec<Movement>, month: Date) -> (r: Vec<(TransactionCategory, i64)>)
    ensures
        r@ == month_categories(ms@, month),
{
    let mut r: Vec<(TransactionCategory, i64)> = Vec::new();
    let mut i: usize = 0;
    while i < ms.len()
        invariant
            i <= ms@.len(),
            r@ == month_categories(ms@.take(i as int), month),
        decreases ms@.len() - i,
    {
        proof {
            assert(ms@.take(i as int + 1).drop_last() =~= ms@.take(i as int));
        }
        if ms[i].amount < 0 && ms[i].date.month_start() == month {
            r.push((ms[i].category, ms[i].amount));
        }
        i = i + 1;
    }
    proof {
        assert(ms@.take(ms@.len() as int) =~= ms@);
    }
    r
}

/// The position of each date of `ds` in `months`.
fn month_positions(months: &Vec<Date>, ds: &Vec<Date>) -> (r: Vec<usize>)
    requires
        forall|x: int| 0 <= x < ds@.len() ==> months@.contains(#[trigger] ds@[x]),
    ensures
        r@.len() == ds@.len(),
        forall|x: int|
            0 <= x < r@.len() ==> #[trigger] r@[x] < months@.len() && months@[r@[x] as int]
                == ds@[x],
{
    let mut r: Vec<usize> = Vec::new();
    let mlen = months.len();
    let mut x: usize = 0;
    while x < ds.len()
        invariant
            mlen == months@.len(),
            x <= ds@.len(),
            r@.len() == x,
            forall|x: int| 0 <= x < ds@.len() ==> months@.contains(#[trigger] ds@[x]),
            forall|y: int|
                0 <= y < x ==> #[trigger] r@[y] < months@.len() && months@[r@[y] as int] == ds@[y],
        decreases ds@.len() - x,
    {
        let d = ds[x];
        proof {
            assert(months@.contains(ds@[x as int]));
        }
        let mut p: usize = 0;
        while months[p] != d
            invariant
                p < months@.len(),
                mlen == months@.len(),
                months@.contains(d),
                forall|q: int| 0 <= q < p ==> months@[q] != d,
            decreases months@.len() - p,
        {
            p = p + 1;
            proof {
                if p == months@.len() {
                    let w = choose|w: int| 0 <= w < months@.len() && months@[w] == d;
                    assert(false);
                }
            }
        }
        r.push(p);
        x = x + 1;
    }
    r
}

/// Per category with an expense, in declaration order: its months and amounts, the position
/// of each month in `months`, and the smallest and largest of all those amounts.
#[verifier::rlimit(40)]
fn category_series(ms: &Vec<Movement>, months: &Vec<Date>) -> (r: (
    Vec<TransactionCategory>,
    Vec<Vec<i128>>,
    Vec<Vec<Date>>,
    Vec<Vec<usize>>,
    i128,
    i128,
))
    requires
        forall|i: int| 0 <= i < monthly(ms@).len() ==> months@.contains(#[trigger] monthly(ms@)[i].0),
    ensures
        ({
            let (categories, categories_amounts, categories_months, categories_months_idx, lo, hi) = r;
            let n = months@.len();
            &&& categories@ == spent_categories(ms@, CATEGORY_COUNT as int)
            &&& categories_amounts@.len() == categories@.len()
            &&& categories_months@.len() == categories@.len()
            &&& categories_months_idx@.len() == categories@.len()
            &&& forall|j: int|
                0 <= j < categories@.len() ==> is_date_grouping(
                    category_months(ms@, #[trigger] categories@[j]),
                    categories_months@[j]@,
                    categories_amounts@[j]@,
                )
            &&& forall|j: int|
                0 <= j < categories@.len() ==> (#[trigger] categories_months_idx@[j])@.len()
                    == categories_months@[j]@.len()
            &&& forall|j: int, x: int|
                0 <= j < categories@.len() && 0 <= x < categories_months_idx@[j]@.len()
                    ==> #[trigger] categories_months_idx@[j]@[x] < n && months@[categories_months_idx@[j]@[x] as int]
                    == categories_months@[j]@[x]
            &&& forall|j: int, x: int|
                0 <= j < categories@.len() && 0 <= x < categories_amounts@[j]@.len()
                    ==> lo <= #[trigger] categories_amounts@[j]@[x] <= hi
            &&& categories@.len() > 0 ==> exists|j: int, x: int|
                0 <= j < categories@.len() && 0 <= x < categories_amounts@[j]@.len()
                    && #[trigger] categories_amounts@[j]@[x] == lo
            &&& categories@.len() > 0 ==> exists|j: int, x: int|
                0 <= j < categories@.len() && 0 <= x < categories_amounts@[j]@.len()
                    && #[trigger] categories_amounts@[j]@[x] == hi
        }),
{
    let ghost msv = ms@;
    let n = months.len();
    let mut categories: Vec<TransactionCategory> = Vec::new();
    let mut categories_amounts: Vec<Vec<i128>> = Vec::new();
    let mut categories_months: Vec<Vec<Date>> = Vec::new();
    let mut categories_months_idx: Vec<Vec<usize>> = Vec::new();
    let mut lo: i128 = 0;
    let mut hi: i128 = 0;
    let ghost mut lo_at: (int, int) = (0, 0);
    let ghost mut hi_at: (int, int) = (0, 0);
    let mut ci: usize = 0;
    while ci < CATEGORY_COUNT
        invariant
            ci <= CATEGORY_COUNT,
            ms@ == msv,
            forall|i: int| 0 <= i < monthly(msv).len() ==> months@.contains(#[trigger] monthly(msv)[i].0),
            n == months@.len(),
            categories@ == spent_categories(msv, ci as int),
            categories_amounts@.len() == categories@.len(),
            categories_months@.len() == categories@.len(),
            categories_months_idx@.len() == categories@.len(),
            forall|j: int|
                0 <= j < categories@.len() ==> is_date_grouping(
                    category_months(msv, #[trigger] categories@[j]),
                    categories_months@[j]@,
                    categories_amounts@[j]@,
                ),
            forall|j: int|
                0 <= j < categories@.len() ==> (#[trigger] categories_months_idx@[j])@.len()
                    == categories_months@[j]@.len(),
            forall|j: int, x: int|
                0 <= j < categories@.len() && 0 <= x < categories_months_idx@[j]@.len()
                    ==> #[trigger] categories_months_idx@[j]@[x] < n && months@[categories_months_idx@[j]@[x] as int]
                    == categories_months@[j]@[x],
            forall|j: int, x: int|
                0 <= j < categories@.len() && 0 <= x < categories_amounts@[j]@.len()
                    ==> lo <= #[trigger] categories_amounts@[j]@[x] <= hi,
            categories@.len() > 0 ==> {
                &&& 0 <= lo_at.0 < categories@.len()
                &&& 0 <= lo_at.1 < categories_amounts@[lo_at.0]@.len()
                &&& categories_amounts@[lo_at.0]@[lo_at.1] == lo
                &&& 0 <= hi_at.0 < categories@.len()
                &&& 0 <= hi_at.1 < categories_amounts@[hi_at.0]@.len()
                &&& categories_amounts@[hi_at.0]@[hi_at.1] == hi
            },
        decreases CATEGORY_COUNT - ci,
    {
        let c = TransactionCategory::from_index(ci);
        let ce = category_month_pairs(&ms, c);
        if ce.len() > 0 {
            let (cm, ca) = group_by_date(&ce);
            proof {
                assert forall|x: int| 0 <= x < cm@.len() implies months@.contains(#[trigger] cm@[x]) by {
                    lemma_category_month_in_months(msv, c, cm@[x]);
                    let w = lemma_occurs_witness(monthly(msv), cm@[x]);
                    assert(months@.contains(monthly(msv)[w].0));
                }
                assert(ce@.contains(ce@[0]));
                assert(cm@.contains(ce@[0].0));
            }
            let idx = month_positions(&months, &cm);
            let (clo, chi) = min_max(&ca);
            let ghost k = categories@.len() as int;
            let ghost old_amounts = categories_amounts@;
            let first = categories.len() == 0;
            if first || clo < lo {
                lo = clo;
                proof {
                    let w = choose|w: int| 0 <= w < ca@.len() && ca@[w] == clo;
                    lo_at = (k, w);
                }
            }
            if first || chi > hi {
                hi = chi;
                proof {
                    let w = choose|w: int| 0 <= w < ca@.len() && ca@[w] == chi;
                    hi_at = (k, w);
                }
            }
            categories.push(c);
            categories_amounts.push(ca);
            categories_months.push(cm);
            categories_months_idx.push(idx);
            proof {
                assert(categories_amounts@[k] == ca);
                assert forall|j: int, x: int|
                    0 <= j < categories@.len() && 0 <= x < categories_amounts@[j]@.len()
                        implies lo <= #[trigger] categories_amounts@[j]@[x] <= hi by {
                    if j < k {
                        assert(categories_amounts@[j] == old_amounts[j]);
                    } else {
                        assert(clo <= ca@[x] <= chi);
                    }
                }
            }
        }
        proof {
            assert(all_categories()[ci as int] == c);
        }
        ci = ci + 1;
    }
    proof {
        if categories@.len() > 0 {
            assert(categories_amounts@[lo_at.0]@[lo_at.1] == lo);
            assert(categories_amounts@[hi_at.0]@[hi_at.1] == hi);
        }
        assert(categories@ == spent_categories(msv, CATEGORY_COUNT as int));
        assert(categories_amounts@.len() == categories@.len());
        assert(categories_months@.len() == categories@.len());
        assert(categories_months_idx@.len() == categories@.len());
        assert(forall|j: int|
                0 <= j < categories@.len() ==> is_date_grouping(
                    category_months(msv, #[trigger] categories@[j]),
                    categories_months@[j]@,
                    categories_amounts@[j]@,
                ));
        assert(forall|j: int|
                0 <= j < categories@.len() ==> (#[trigger] categories_months_idx@[j])@.len()
                    == categories_months@[j]@.len());
        assert(forall|j: int, x: int|
                0 <= j < categories@.len() && 0 <= x < categories_months_idx@[j]@.len()
                    ==> #[trigger] categories_months_idx@[j]@[x] < months@.len() && months@[categories_months_idx@[j]@[x] as int]
                    == categories_months@[j]@[x]);
        assert(forall|j: int, x: int|
                0 <= j < categories@.len() && 0 <= x < categories_amounts@[j]@.len()
                    ==> lo <= #[trigger] categories_amounts@[j]@[x] <= hi);
        assert(categories@.len() > 0 ==> exists|j: int, x: int|
                0 <= j < categories@.len() && 0 <= x < categories_amounts@[j]@.len()
                    && #[trigger] categories_amounts@[j]@[x] == lo);
        assert(categories@.len() > 0 ==> exists|j: int, x: int|
                0 <= j < categories@.len() && 0 <= x < categories_amounts@[j]@.len()
                    && #[trigger] categories_amounts@[j]@[x] == hi);
    }
    (categories, categories_amounts, categories_months, categories_months_idx, lo, hi)
}

/// Per month of `months`: the expense categories ranked by increasing sum, at most `limit`
/// of them, with their sums and their shares of the month's expenses.
fn month_rankings(ms: &Vec<Movement>, months: &Vec<Date>, max_categories: Option<usize>) -> (r: (
    Vec<Vec<Share>>,
    Vec<Vec<i128>>,
    Vec<Date>,
    Vec<Vec<TransactionCategory>>,
))
    ensures
        ({
            let (categories_amounts_perc, categories_amounts_perc_value, categories_amounts_perc_months, categories_amounts_perc_names) = r;
            let n = months@.len();
            &&& categories_amounts_perc_months@ == months@
            &&& categories_amounts_perc@.len() == n
            &&& categories_amounts_perc_value@.len() == n
            &&& categories_amounts_perc_names@.len() == n
            &&& forall|i: int|
                0 <= i < n ==> is_top(
                    month_categories(ms@, months@[i]),
                    max_categories,
                    (#[trigger] categories_amounts_perc_names@[i])@,
                    categories_amounts_perc_value@[i]@,
                )
            &&& forall|i: int|
                0 <= i < n ==> (#[trigger] categories_amounts_perc@[i])@.len()
                    == categories_amounts_perc_value@[i]@.len()
            &&& forall|i: int, x: int|
                0 <= i < n && 0 <= x < categories_amounts_perc@[i]@.len()
                    ==> #[trigger] categories_amounts_perc@[i]@[x] == (Share {
                    part: categories_amounts_perc_value@[i]@[x],
                    whole: total(month_categories(ms@, months@[i])) as i128,
                })
        }),
{
    let ghost msv = ms@;
    let n = months.len();
    let mut categories_amounts_perc: Vec<Vec<Share>> = Vec::new();
    let mut categories_amounts_perc_value: Vec<Vec<i128>> = Vec::new();
    let mut categories_amounts_perc_months: Vec<Date> = Vec::new();
    let mut categories_amounts_perc_names: Vec<Vec<TransactionCategory>> = Vec::new();
    let mut i: usize = 0;
    while i < n
        invariant
            i <= n,
            n == months@.len(),
            ms@ == msv,
            categories_amounts_perc_months@ == months@.take(i as int),
            categories_amounts_perc@.len() == i,
            categories_amounts_perc_value@.len() == i,
            categories_amounts_perc_names@.len() == i,
            forall|y: int|
                0 <= y < i ==> is_top(
                    month_categories(msv, months@[y]),
                    max_categories,
                    (#[trigger] categories_amounts_perc_names@[y])@,
                    categories_amounts_perc_value@[y]@,
                ),
            forall|y: int|
                0 <= y < i ==> (#[trigger] categories_amounts_perc@[y])@.len()
                    == categories_amounts_perc_value@[y]@.len(),
            forall|y: int, x: int|
                0 <= y < i && 0 <= x < categories_amounts_perc@[y]@.len()
                    ==> #[trigger] categories_amounts_perc@[y]@[x] == (Share {
                    part: categories_amounts_perc_value@[y]@[x],
                    whole: total(month_categories(msv, months@[y])) as i128,
                }),
        decreases n - i,
    {
        let month = months[i];
        let g = month_category_pairs(&ms, month);
        let (names, values, shares) = top_categories(&g, max_categories);
        categories_amounts_perc.push(shares);
        categories_amounts_perc_value.push(values);
        categories_amounts_perc_names.push(names);
        categories_amounts_perc_months.push(month);
        proof {
            assert(categories_amounts_perc_months@ =~= months@.take(i as int + 1));
        }
        i = i + 1;
    }
    proof {
        assert(months@.take(n as int) =~= months@);
    }
    proof {
        assert(months@.take(n as int) =~= months@);
    }
    (categories_amounts_perc, categories_amounts_perc_value, categories_amounts_perc_months, categories_amounts_perc_names)
}

proof fn lemma_spent_members(ms: Seq<Movement>, k: int)
    ensures
        forall|j: int|
            0 <= j < spent_categories(ms, k).len() ==> category_months(
                ms,
                #[trigger] spent_categories(ms, k)[j],
            ).len() > 0,
    decreases k,
{
    if k > 0 {
        lemma_spent_members(ms, k - 1);
        let prev = spent_categories(ms, k - 1);
        let cur = spent_categories(ms, k);
        assert forall|j: int| 0 <= j < cur.len() implies category_months(ms, #[trigger] cur[j]).len() > 0 by {
            if j < prev.len() {
                assert(cur[j] == prev[j]);
            }
        }
    }
}

/// The monthly breakdown of a registry.
pub struct MonthlyTransactions {
    /// The distinct months, each given by its first day, in increasing order.
    pub months: Vec<Date>,
    /// The net amount of each month.
    pub net_income: Vec<i128>,
    pub months_idx: Vec<usize>,
    pub months_idx_range: (usize, usize),
    pub net_income_range: (i128, i128),
    /// The categories with an expense, in declaration order.
    pub categories: Vec<TransactionCategory>,
    /// Per category: the expense of each month in which it has one.
    pub categories_amounts: Vec<Vec<i128>>,
    /// Per category: the months in which it has an expense, in increasing order.
    pub categories_months: Vec<Vec<Date>>,
    /// Per category: the position in `months` of each of its months.
    pub categories_months_idx: Vec<Vec<usize>>,
    pub categories_amounts_range: (i128, i128),
    pub categories_months_idx_range: (usize, usize),
    /// Per month: the share of each ranked category in the month's expenses.
    pub categories_amounts_perc: Vec<Vec<Share>>,
    /// Per month: the expense of each ranked category.
    pub categories_amounts_perc_value: Vec<Vec<i128>>,
    /// The month of each ranking.
    pub categories_amounts_perc_months: Vec<Date>,
    /// Per month: the categories ranked by decreasing share, that is by increasing (more
    /// negative first) expense.
    pub categories_amounts_perc_names: Vec<Vec<TransactionCategory>>,
}

/// `d` is the monthly breakdown of the movements `ms`, keeping at most `limit` categories per
/// month.
pub open spec fn is_monthly_breakdown(ms: Seq<Movement>, max_categories: Option<usize>, d: MonthlyTransactions) -> bool {
    let n = d.months@.len();
        &&& n > 0
        &&& is_date_grouping(monthly(ms), d.months@, d.net_income@)
        &&& d.months_idx@.len() == n
        &&& forall|j: int| 0 <= j < n ==> #[trigger] d.months_idx@[j] == j
        &&& d.months_idx_range == (0usize, (n - 1) as usize)
        &&& is_min(d.net_income@, d.net_income_range.0)
        &&& is_max(d.net_income@, d.net_income_range.1)
        &&& d.categories@ == spent_categories(ms, CATEGORY_COUNT as int)
        &&& d.categories_amounts@.len() == d.categories@.len()
        &&& d.categories_months@.len() == d.categories@.len()
        &&& d.categories_months_idx@.len() == d.categories@.len()
        &&& forall|j: int|
            0 <= j < d.categories@.len() ==> is_date_grouping(
                category_months(ms, #[trigger] d.categories@[j]),
                d.categories_months@[j]@,
                d.categories_amounts@[j]@,
            )
        &&& forall|j: int|
            0 <= j < d.categories@.len() ==> (#[trigger] d.categories_months_idx@[j])@.len()
                == d.categories_months@[j]@.len()
        &&& forall|j: int, x: int|
            0 <= j < d.categories@.len() && 0 <= x < d.categories_months_idx@[j]@.len()
                ==> #[trigger] d.categories_months_idx@[j]@[x] < n && d.months@[d.categories_months_idx@[j]@[x] as int]
                == d.categories_months@[j]@[x]
        &&& forall|j: int, x: int|
            0 <= j < d.categories@.len() && 0 <= x < d.categories_amounts@[j]@.len()
                ==> d.categories_amounts_range.0 <= #[trigger] d.categories_amounts@[j]@[x]
                <= d.categories_amounts_range.1
        &&& exists|j: int, x: int|
            0 <= j < d.categories@.len() && 0 <= x < d.categories_amounts@[j]@.len()
                && #[trigger] d.categories_amounts@[j]@[x] == d.categories_amounts_range.0
        &&& exists|j: int, x: int|
            0 <= j < d.categories@.len() && 0 <= x < d.categories_amounts@[j]@.len()
                && #[trigger] d.categories_amounts@[j]@[x] == d.categories_amounts_range.1
        &&& d.categories_months_idx_range == (0usize, (n - 1) as usize)
        &&& d.categories_amounts_perc_months@ == d.months@
        &&& d.categories_amounts_perc@.len() == n
        &&& d.categories_amounts_perc_value@.len() == n
        &&& d.categories_amounts_perc_names@.len() == n
        &&& forall|i: int|
            0 <= i < n ==> is_top(
                month_categories(ms, d.months@[i]),
                max_categories,
                (#[trigger] d.categories_amounts_perc_names@[i])@,
                d.categories_amounts_perc_value@[i]@,
            )
        &&& forall|i: int|
            0 <= i < n ==> (#[trigger] d.categories_amounts_perc@[i])@.len()
                == d.categories_amounts_perc_value@[i]@.len()
        &&& forall|i: int, x: int|
            0 <= i < n && 0 <= x < d.categories_amounts_perc@[i]@.len()
                ==> #[trigger] d.categories_amounts_perc@[i]@[x] == (Share {
                part: d.categories_amounts_perc_value@[i]@[x],
                whole: total(month_categories(ms, d.months@[i])) as i128,
            })
}

/// The monthly breakdown of the selected transactions: net income per month, each expense
/// category's amounts across months, and per month the expense categories ranked by share,
/// keeping at most `max_categories`. Fails when the filters select nothing or no expense.
pub fn monthy_extraction(
    registry: &Registry,
    accounts: Option<&Vec<TransactionAccountName>>,
    date_range: Option<(Date, Date)>,
    max_categories: Option<usize>,
) -> (r: Result<MonthlyTransactions, PlotError>)
    ensures
        ({
            let ms = movements(registry@.transactions, names_view(accounts), date_range);
            &&& r is Err <==> (ms.len() == 0 || forall|i: int| 0 <= i < ms.len() ==> #[trigger] ms[i].amount >= 0)
            &&& r is Ok ==> is_monthly_breakdown(ms, max_categories, r->Ok_0)
        }),
{
    let ms = select_movements(registry, accounts, date_range);
    let ghost msv = ms@;
    if ms.len() == 0 {
        return Err(PlotError {});
    }
    let me = month_pairs(&ms);
    let (months, net_income) = group_by_date(&me);
    let n = months.len();
    proof {
        assert(me@[0] == monthly(msv)[0]);
        assert(months@.contains(me@[0].0));
    }
    let months_idx = positions(n);
    let net_income_range = min_max(&net_income);

    let (categories, categories_amounts, categories_months, categories_months_idx, lo, hi) =
        category_series(&ms, &months);
    if categories.len() == 0 {
        proof {
            assert forall|i: int| 0 <= i < msv.len() implies #[trigger] msv[i].amount >= 0 by {
                if msv[i].amount < 0 {
                    lemma_expense_is_spent(msv, i);
                    lemma_category_index(msv[i].category);
                    lemma_spent_nonempty(msv, msv[i].category.spec_index(), CATEGORY_COUNT as int);
                }
            }
        }
        return Err(PlotError {});
    }
    proof {
        let c = categories@[0];
        lemma_spent_members(msv, CATEGORY_COUNT as int);
        assert(category_months(msv, c).len() > 0);
        lemma_spent_has_expense(msv, c);
    }

    let (categories_amounts_perc, categories_amounts_perc_value, categories_amounts_perc_months, categories_amounts_perc_names) =
        month_rankings(&ms, &months, max_categories);
    let d = MonthlyTransactions {
        months,
        net_income,
        months_idx,
        months_idx_range: (0, n - 1),
        net_income_range,
        categories,
        categories_amounts,
        categories_months,
        categories_months_idx,
        categories_amounts_range: (lo, hi),
        categories_months_idx_range: (0, n - 1),
        categories_amounts_perc,
        categories_amounts_perc_value,
        categories_amounts_perc_months,
        categories_amounts_perc_names,
    };
    proof {
        assert(d.months@.len() > 0);
        assert(is_date_grouping(monthly(msv), d.months@, d.net_income@));
        assert(d.months_idx@.len() == d.months@.len());
        assert(forall|j: int| 0 <= j < d.months@.len() ==> #[trigger] d.months_idx@[j] == j);
        assert(d.months_idx_range == (0usize, (d.months@.len() - 1) as usize));
        assert(is_min(d.net_income@, d.net_income_range.0));
        assert(is_max(d.net_income@, d.net_income_range.1));
        assert(d.categories@ == spent_categories(msv, CATEGORY_COUNT as int));
        assert(d.categories_amounts@.len() == d.categories@.len());
        assert(d.categories_months@.len() == d.categories@.len());
        assert(d.categories_months_idx@.len() == d.categories@.len());
        assert(forall|j: int|
            0 <= j < d.categories@.len() ==> is_date_grouping(
                category_months(msv, #[trigger] d.categories@[j]),
                d.categories_months@[j]@,
                d.categories_amounts@[j]@,
            ));
        assert(forall|j: int|
            0 <= j < d.categories@.len() ==> (#[trigger] d.categories_months_idx@[j])@.len()
                == d.categories_months@[j]@.len());
        assert(forall|j: int, x: int|
            0 <= j < d.categories@.len() && 0 <= x < d.categories_months_idx@[j]@.len()
                ==> #[trigger] d.categories_months_idx@[j]@[x] < d.months@.len() && d.months@[d.categories_months_idx@[j]@[x] as int]
                == d.categories_months@[j]@[x]);
        assert(forall|j: int, x: int|
            0 <= j < d.categories@.len() && 0 <= x < d.categories_amounts@[j]@.len()
                ==> d.categories_amounts_range.0 <= #[trigger] d.categories_amounts@[j]@[x]
                <= d.categories_amounts_range.1);
        assert(exists|j: int, x: int|
            0 <= j < d.categories@.len() && 0 <= x < d.categories_amounts@[j]@.len()
                && #[trigger] d.categories_amounts@[j]@[x] == d.categories_amounts_range.0);
        assert(exists|j: int, x: int|
            0 <= j < d.categories@.len() && 0 <= x < d.categories_amounts@[j]@.len()
                && #[trigger] d.categories_amounts@[j]@[x] == d.categories_amounts_range.1);
        assert(d.categories_months_idx_range == (0usize, (d.months@.len() - 1) as usize));
        assert(d.categories_amounts_perc_months@ == d.months@);
        assert(d.categories_amounts_perc@.len() == d.months@.len());
        assert(d.categories_amounts_perc_value@.len() == d.months@.len());
        assert(d.categories_amounts_perc_names@.len() == d.months@.len());
        assert(forall|i: int|
            0 <= i < d.months@.len() ==> is_top(
                month_categories(msv, d.months@[i]),
                max_categories,
                (#[trigger] d.categories_amounts_perc_names@[i])@,
                d.categories_amounts_perc_value@[i]@,
            ));
        assert(forall|i: int|
            0 <= i < d.months@.len() ==> (#[trigger] d.categories_amounts_perc@[i])@.len()
                == d.categories_amounts_perc_value@[i]@.len());
        assert(forall|i: int, x: int|
            0 <= i < d.months@.len() && 0 <= x < d.categories_amounts_perc@[i]@.len()
                ==> #[trigger] d.categories_amounts_perc@[i]@[x] == (Share {
                part: d.categories_amounts_perc_value@[i]@[x],
                whole: total(month_categories(msv, d.months@[i])) as i128,
            }));
        assert(is_monthly_breakdown(msv, max_categories, d));
    }
    Ok(d)
}

proof fn lemma_spent_nonempty(ms: Seq<Movement>, k0: int, k: int)
    requires
        0 <= k0 < k,
        category_months(ms, all_categories()[k0]).len() > 0,
    ensures
        spent_categories(ms, k).len() > 0,
    decreases k,
{
    if k0 < k - 1 && category_months(ms, all_categories()[k - 1]).len() == 0 {
        lemma_spent_nonempty(ms, k0, k - 1);
    }
}

} // verus!
