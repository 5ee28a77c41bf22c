//! Read-only views of a registry for reporting: daily series, category splits and monthly
//! breakdowns.
use vstd::prelude::*;

use crate::date::Date;
use crate::model::registry::{all_account_names, initial_of, initial_sum, Registry, AccountState};
use crate::ranking::{amounts_of, categories_of, is_ranking, is_top, is_top_of, kept, rank_categories};
use crate::sums::{
    abs, abs_sum, cap, group_by_date, is_max, is_min, key_sum, lemma_abs_sum_bounds,
    lemma_abs_sum_prefix, lemma_fits_i128, min_max, occurs, seq_sum, total,
};
use crate::model::transaction::{TransactionAccountName, TransactionCategory, TransactionEvent};

verus! {

/// An extraction found nothing to aggregate: the filters left no transaction.
#[derive(Clone, Copy, Debug, PartialEq, Eq, Structural)]
pub struct PlotError {}

/// What the extractions read of a transaction.
#[derive(Clone, Copy, Debug, PartialEq, Eq, Structural)]
pub struct Movement {
    pub date: Date,
    pub amount: i64,
    pub category: TransactionCategory,
}

pub open spec fn movement_of(t: TransactionEvent) -> Movement {
    Movement { date: t.date, amount: t.amount, category: t.category }
}

pub open spec fn names_view(accounts: Option<&Vec<TransactionAccountName>>) -> Option<Seq<TransactionAccountName>> {
    match accounts {
        Some(v) => Some(v@),
        None => None,
    }
}

/// `t` is on one of the named accounts (any account when none are named) and dated within the
/// inclusive range (any date when there is none).
pub open spec fn selected(
    t: TransactionEvent,
    accounts: Option<Seq<TransactionAccountName>>,
    date_range: Option<(Date, Date)>,
) -> bool {
    &&& (accounts is None || accounts->0.contains(t.account))
    &&& match date_range {
        Some((from, to)) => from.key() <= t.date.key() && t.date.key() <= to.key(),
        None => true,
    }
}

/// The movements of the selected transactions of `ts`, in log order.
pub open spec fn movements(
    ts: Seq<TransactionEvent>,
    accounts: Option<Seq<TransactionAccountName>>,
    date_range: Option<(Date, Date)>,
) -> Seq<Movement>
    decreases ts.len(),
{
    if ts.len() == 0 {
        Seq::empty()
    } else if selected(ts.last(), accounts, date_range) {
        movements(ts.drop_last(), accounts, date_range).push(movement_of(ts.last()))
    } else {
        movements(ts.drop_last(), accounts, date_range)
    }
}

/// Each movement as a `(date, amount)` pair.
pub open spec fn dated(ms: Seq<Movement>) -> Seq<(Date, i64)> {
    ms.map_values(|m: Movement| (m.date, m.amount))
}

/// The opening balance that a series over the named accounts starts from.
pub open spec fn opening_balance(
    accounts: Map<TransactionAccountName, AccountState>,
    names: Option<Seq<TransactionAccountName>>,
) -> int {
    match names {
        Some(n) => initial_sum(accounts, n),
        None => initial_sum(accounts, all_account_names()),
    }
}

proof fn lemma_movements_len(
    ts: Seq<TransactionEvent>,
    accounts: Option<Seq<TransactionAccountName>>,
    date_range: Option<(Date, Date)>,
)
    ensures
        movements(ts, accounts, date_range).len() <= ts.len(),
    decreases ts.len(),
{
    if ts.len() > 0 {
        lemma_movements_len(ts.drop_last(), accounts, date_range);
    }
}

proof fn lemma_initial_sum_bound(
    m: Map<TransactionAccountName, AccountState>,
    names: Seq<TransactionAccountName>,
)
    ensures
        abs(initial_sum(m, names)) <= names.len() * cap(),
    decreases names.len(),
{
    if names.len() > 0 {
        lemma_initial_sum_bound(m, names.drop_last());
        assert(abs(initial_of(m, names.last())) <= cap());
        assert((names.len() - 1) * cap() + cap() == names.len() * cap()) by (nonlinear_arith);
    }
}

fn names_contain(v: &Vec<TransactionAccountName>, n: TransactionAccountName) -> (r: bool)
    ensures
        r == v@.contains(n),
{
    let mut i: usize = 0;
    while i < v.len()
        invariant
            i <= v@.len(),
            forall|j: int| 0 <= j < i ==> v@[j] != n,
        decreases v@.len() - i,
    {
        if v[i] == n {
            proof {
                assert(v@[i as int] == n);
            }
            return true;
        }
        i = i + 1;
    }
    false
}

/// The movements of the transactions that the filters select, in log order.
pub fn select_movements(
    registry: &Registry,
    accounts: Option<&Vec<TransactionAccountName>>,
    date_range: Option<(Date, Date)>,
) -> (r: Vec<Movement>)
    ensures
        r@ == movements(registry@.transactions, names_view(accounts), date_range),
{
    let ts = registry.transactions();
    let mut r: Vec<Movement> = Vec::new();
    let mut i: usize = 0;
    while i < ts.len()
        invariant
            ts@ == registry@.transactions,
            i <= ts@.len(),
            r@ == movements(ts@.take(i as int), names_view(accounts), date_range),
        decreases ts@.len() - i,
    {
        let t = &ts[i];
        let on_account = match accounts {
            None => true,
            Some(v) => names_contain(v, t.account),
        };
        let in_range = match date_range {
            None => true,
            Some((from, to)) => from.is_on_or_before(&t.date) && t.date.is_on_or_before(&to),
        };
        proof {
            assert(ts@.take(i as int + 1).drop_last() =~= ts@.take(i as int));
        }
        if on_account && in_range {
            r.push(Movement { date: t.date, amount: t.amount, category: t.category });
        }
        i = i + 1;
    }
    proof {
        assert(ts@.take(ts@.len() as int) =~= ts@);
    }
    r
}

fn dated_pairs(ms: &Vec<Movement>) -> (r: Vec<(Date, i64)>)
    ensures
        r@ == dated(ms@),
{
    let mut r: Vec<(Date, i64)> = Vec::new();
    let mut i: usize = 0;
    while i < ms.len()
        invariant
            i <= ms@.len(),
            r@ == dated(ms@.take(i as int)),
        decreases ms@.len() - i,
    {
        r.push((ms[i].date, ms[i].amount));
        proof {
            assert(dated(ms@.take(i as int + 1)) =~= dated(ms@.take(i as int)).push(
                (ms@[i as int].date, ms@[i as int].amount),
            ));
        }
        i = i + 1;
    }
    proof {
        assert(ms@.take(ms@.len() as int) =~= ms@);
    }
    r
}

/// The positions `0, 1, ..., n - 1`.
pub(crate) fn positions(n: usize) -> (r: Vec<usize>)
    ensures
        r@.len() == n,
        forall|i: int| 0 <= i < n ==> #[trigger] r@[i] == i,
{
    let mut r: Vec<usize> = Vec::new();
    let mut i: usize = 0;
    while i < n
        invariant
            i <= n,
            r@.len() == i,
            forall|j: int| 0 <= j < i ==> #[trigger] r@[j] == j,
        decreases n - i,
    {
        r.push(i);
        i = i + 1;
    }
    r
}

/// The daily series of a registry.
pub struct DailyTransactions {
    /// The distinct dates, in increasing order.
    pub days: Vec<Date>,
    /// The net amount of each date.
    pub amounts: Vec<i128>,
    /// The running total of the net amounts, from the opening balance.
    pub cumsum_amounts: Vec<i128>,
    /// The position of each date.
    pub days_idx: Vec<usize>,
    pub days_idx_range: (usize, usize),
    pub amounts_range: (i128, i128),
    pub cumsum_amounts_range: (i128, i128),
}

/// The daily net amounts of the selected transactions, and their running total. With
/// `with_initial_total_value` the running total starts from the opening balance of the
/// selected accounts. Fails when the filters select nothing.
pub fn extract_daily_transactions(
    registry: &Registry,
    accounts: Option<&Vec<TransactionAccountName>>,
    date_range: Option<(Date, Date)>,
    with_initial_total_value: bool,
) -> (r: Result<DailyTransactions, PlotError>)
    requires
        registry.wf(),
        registry@.transactions.len() + match accounts {
            Some(v) => v@.len(),
            None => 6,
        } <= usize::MAX,
    ensures
        ({
            let es = dated(movements(registry@.transactions, names_view(accounts), date_range));
            let offset = if with_initial_total_value {
                opening_balance(registry@.accounts, names_view(accounts))
            } else {
                0
            };
            &&& r is Err <==> es.len() == 0
            &&& r is Ok ==> {
                let d = r->Ok_0;
                let n = d.days@.len();
                &&& n > 0
                &&& forall|i: int, j: int| 0 <= i < j < n ==> d.days@[i].key() < d.days@[j].key()
                &&& forall|i: int| 0 <= i < es.len() ==> d.days@.contains(#[trigger] es[i].0)
                &&& forall|j: int| 0 <= j < n ==> occurs(es, #[trigger] d.days@[j])
                &&& d.amounts@.len() == n
                &&& forall|j: int| 0 <= j < n ==> #[trigger] d.amounts@[j] as int == key_sum(es, d.days@[j])
                &&& d.cumsum_amounts@.len() == n
                &&& forall|j: int|
                    0 <= j < n ==> #[trigger] d.cumsum_amounts@[j] as int == offset + seq_sum(
                        d.amounts@.take(j + 1),
                    )
                &&& d.days_idx@.len() == n
                &&& forall|j: int| 0 <= j < n ==> #[trigger] d.days_idx@[j] == j
                &&& d.days_idx_range == (0usize, (n - 1) as usize)
                &&& is_min(d.amounts@, d.amounts_range.0)
                &&& is_max(d.amounts@, d.amounts_range.1)
                &&& is_min(d.cumsum_amounts@, d.cumsum_amounts_range.0)
                &&& is_max(d.cumsum_amounts@, d.cumsum_amounts_range.1)
            }
        }),
{
    let ghost m = registry@.accounts;
    let ghost names = names_view(accounts);
    let mut offset: i128 = 0;
    if with_initial_total_value {
        offset = registry.get_initial_account_values(accounts);
    }
    let ghost m_len: int = match accounts {
        Some(v) => v@.len() as int,
        None => 6,
    };
    proof {
        match accounts {
            Some(v) => lemma_initial_sum_bound(m, v@),
            None => lemma_initial_sum_bound(m, all_account_names()),
        }
    }
    let ms = select_movements(registry, accounts, date_range);
    let es = dated_pairs(&ms);
    proof {
        lemma_movements_len(registry@.transactions, names, date_range);
    }
    if es.len() == 0 {
        return Err(PlotError {});
    }
    let (days, amounts) = group_by_date(&es);
    let n = days.len();
    proof {
        assert(es@.contains(es@[0]));
        assert(days@.contains(es@[0].0));
        lemma_abs_sum_bounds(amounts@);
        lemma_fits_i128(m_len + es@.len());
        assert((m_len + es@.len()) * cap() == m_len * cap() + es@.len() * cap()) by (nonlinear_arith);
    }
    let mut cumsum: Vec<i128> = Vec::new();
    let mut running: i128 = offset;
    let mut j: usize = 0;
    while j < n
        invariant
            j <= n,
            n == days@.len(),
            amounts@.len() == n,
            cumsum@.len() == j,
            abs(offset as int) <= m_len * cap(),
            abs_sum(amounts@) <= es@.len() * cap(),
            (m_len + es@.len()) * cap() < 0x7fff_ffff_ffff_ffff_ffff_ffff_ffff_ffff,
            running as int == offset + seq_sum(amounts@.take(j as int)),
            forall|i: int|
                0 <= i < j ==> #[trigger] cumsum@[i] as int == offset + seq_sum(
                    amounts@.take(i + 1),
                ),
        decreases n - j,
    {
        proof {
            let t = amounts@.take(j as int + 1);
            assert(t.drop_last() =~= amounts@.take(j as int));
            lemma_abs_sum_bounds(t);
            lemma_abs_sum_prefix(amounts@, j as int + 1);
            assert((m_len + es@.len()) * cap() == m_len * cap() + es@.len() * cap()) by (nonlinear_arith);
        }
        running = running + amounts[j];
        cumsum.push(running);
        j = j + 1;
    }
    let days_idx = positions(n);
    let amounts_range = min_max(&amounts);
    let cumsum_amounts_range = min_max(&cumsum);
    let d = DailyTransactions {
        days,
        amounts,
        cumsum_amounts: cumsum,
        days_idx,
        days_idx_range: (0, n - 1),
        amounts_range,
        cumsum_amounts_range,
    };
    Ok(d)
}

/// A share of a whole, as a percentage: `100 * part / whole`.
#[derive(Clone, Copy, Debug, PartialEq, Eq, Structural)]
pub struct Share {
    pub part: i128,
    pub whole: i128,
}

/// The `(category, amount)` pairs of the movements that bring money in.
pub open spec fn income_entries(ms: Seq<Movement>) -> Seq<(TransactionCategory, i64)>
    decreases ms.len(),
{
    if ms.len() == 0 {
        Seq::empty()
    } else if ms.last().amount > 0 {
        income_entries(ms.drop_last()).push((ms.last().category, ms.last().amount))
    } else {
        income_entries(ms.drop_last())
    }
}

/// The `(category, amount)` pairs of the movements that take money out.
pub open spec fn expense_entries(ms: Seq<Movement>) -> Seq<(TransactionCategory, i64)>
    decreases ms.len(),
{
    if ms.len() == 0 {
        Seq::empty()
    } else if ms.last().amount < 0 {
        expense_entries(ms.drop_last()).push((ms.last().category, ms.last().amount))
    } else {
        expense_entries(ms.drop_last())
    }
}

/// Picks the `(category, amount)` pairs of the incomes (`incomes`) or of the expenses.
fn sign_entries(ms: &Vec<Movement>, incomes: bool) -> (r: Vec<(TransactionCategory, i64)>)
    ensures
        incomes ==> r@ == income_entries(ms@),
        !incomes ==> r@ == expense_entries(ms@),
{
    let mut r: Vec<(TransactionCategory, i64)> = Vec::new();
    let mut i: usize = 0;
    while i < ms.len()
        invariant
            i <= ms@.len(),
            incomes ==> r@ == income_entries(ms@.take(i as int)),
            !incomes ==> r@ == expense_entries(ms@.take(i as int)),
        decreases ms@.len() - i,
    {
        let m = ms[i];
        proof {
            assert(ms@.take(i as int + 1).drop_last() =~= ms@.take(i as int));
        }
        if (incomes && m.amount > 0) || (!incomes && m.amount < 0) {
            r.push((m.category, m.amount));
        }
        i = i + 1;
    }
    proof {
        assert(ms@.take(ms@.len() as int) =~= ms@);
    }
    r
}

/// The sum of the values of `v`.
fn sum_of(v: &Vec<i128>) -> (r: i128)
    requires
        abs_sum(v@) < 0x7fff_ffff_ffff_ffff_ffff_ffff_ffff_ffff,
    ensures
        r as int == seq_sum(v@),
{
    let mut r: i128 = 0;
    let mut i: usize = 0;
    while i < v.len()
        invariant
            i <= v@.len(),
            abs_sum(v@) < 0x7fff_ffff_ffff_ffff_ffff_ffff_ffff_ffff,
            r as int == seq_sum(v@.take(i as int)),
        decreases v@.len() - i,
    {
        proof {
            let t = v@.take(i as int + 1);
            assert(t.drop_last() =~= v@.take(i as int));
            lemma_abs_sum_bounds(t);
            lemma_abs_sum_prefix(v@, i as int + 1);
        }
        r = r + v[i];
        i = i + 1;
    }
    proof {
        assert(v@.take(v@.len() as int) =~= v@);
    }
    r
}

/// The categories of `g` in increasing order of their sums, cut to `limit` entries, with each
/// sum's share of the sum of all of `g`.
pub(crate) fn top_categories(g: &Vec<(TransactionCategory, i64)>, limit: Option<usize>) -> (r: (
    Vec<TransactionCategory>,
    Vec<i128>,
    Vec<Share>,
))
    ensures
        is_top(g@, limit, r.0@, r.1@),
        r.2@.len() == r.1@.len(),
        forall|j: int|
            0 <= j < r.2@.len() ==> #[trigger] r.2@[j] == (Share { part: r.1@[j], whole: total(g@) as i128 }),
        limit is None ==> seq_sum(r.1@) == total(g@),
        r.1@.len() <= g@.len(),
{
    let full = rank_categories(g);
    let ghost f = full@;
    let mut all_amounts: Vec<i128> = Vec::new();
    let mut i: usize = 0;
    while i < full.len()
        invariant
            i <= f.len(),
            full@ == f,
            all_amounts@ == amounts_of(f.take(i as int)),
        decreases f.len() - i,
    {
        all_amounts.push(full[i].1);
        proof {
            assert(amounts_of(f.take(i as int + 1)) =~= amounts_of(f.take(i as int)).push(f[i as int].1));
        }
        i = i + 1;
    }
    let glen = g.len();
    proof {
        assert(f.take(f.len() as int) =~= f);
        lemma_fits_i128(glen as int);
        lemma_abs_sum_bounds(all_amounts@);
        lemma_group_len(g@, f);
    }
    let whole = sum_of(&all_amounts);
    let k: usize = match limit {
        Some(n) => if n < full.len() { n } else { full.len() },
        None => full.len(),
    };
    let mut cats: Vec<TransactionCategory> = Vec::new();
    let mut amounts: Vec<i128> = Vec::new();
    let mut shares: Vec<Share> = Vec::new();
    let mut j: usize = 0;
    while j < k
        invariant
            j <= k,
            k == kept(limit, f.len() as int),
            full@ == f,
            whole as int == total(g@),
            cats@ == categories_of(f.take(j as int)),
            amounts@ == amounts_of(f.take(j as int)),
            shares@.len() == j,
            forall|x: int| 0 <= x < j ==> #[trigger] shares@[x] == (Share { part: amounts@[x], whole }),
        decreases k - j,
    {
        let (c, a) = full[j];
        cats.push(c);
        amounts.push(a);
        shares.push(Share { part: a, whole });
        proof {
            assert(categories_of(f.take(j as int + 1)) =~= categories_of(f.take(j as int)).push(c));
            assert(amounts_of(f.take(j as int + 1)) =~= amounts_of(f.take(j as int)).push(a));
        }
        j = j + 1;
    }
    proof {
        assert(is_top_of(g@, f, limit, cats@, amounts@));
        if limit is None {
            assert(f.take(f.len() as int) =~= f);
        }
    }
    (cats, amounts, shares)
}

/// A grouping has no more entries than the amounts it groups.
proof fn lemma_group_len(g: Seq<(TransactionCategory, i64)>, f: Seq<(TransactionCategory, i128)>)
    requires
        is_ranking(g, f),
    ensures
        f.len() <= g.len(),
{
    let keys = categories_of(f).to_set();
    let src = g.map_values(|p: (TransactionCategory, i64)| p.0).to_set();
    assert forall|c: TransactionCategory| keys.contains(c) implies src.contains(c) by {
        let j = choose|j: int| 0 <= j < f.len() && categories_of(f)[j] == c;
        let w = crate::sums::lemma_occurs_witness(g, c);
        assert(g.map_values(|p: (TransactionCategory, i64)| p.0)[w] == c);
    }
    vstd::set_lib::lemma_len_subset(keys, src);
    categories_of(f).unique_seq_to_set();
    g.map_values(|p: (TransactionCategory, i64)| p.0).lemma_cardinality_of_set();
}

/// The incomes and the expenses split by category.
pub struct CategoriesSplit {
    pub income_categories: Vec<TransactionCategory>,
    pub income_percentages: Vec<Share>,
    pub income_amounts: Vec<i128>,
    pub expense_categories: Vec<TransactionCategory>,
    pub expense_percentages: Vec<Share>,
    pub expense_amounts: Vec<i128>,
}

/// Splits the selected transactions into incomes and expenses, sums each group per category,
/// and orders each group by increasing sum, keeping at most `max_categories` entries. Each
/// share is of the whole group, before any entry is dropped.
pub fn extract_categories_split(
    registry: &Registry,
    accounts: Option<&Vec<TransactionAccountName>>,
    date_range: Option<(Date, Date)>,
    max_categories: Option<usize>,
) -> (r: CategoriesSplit)
    ensures
        ({
            let ms = movements(registry@.transactions, names_view(accounts), date_range);
            let gi = income_entries(ms);
            let ge = expense_entries(ms);
            &&& is_top(gi, max_categories, r.income_categories@, r.income_amounts@)
            &&& is_top(ge, max_categories, r.expense_categories@, r.expense_amounts@)
            &&& r.income_percentages@.len() == r.income_amounts@.len()
            &&& r.expense_percentages@.len() == r.expense_amounts@.len()
            &&& forall|j: int|
                0 <= j < r.income_percentages@.len() ==> #[trigger] r.income_percentages@[j] == (Share {
                    part: r.income_amounts@[j],
                    whole: total(gi) as i128,
                })
            &&& forall|j: int|
                0 <= j < r.expense_percentages@.len() ==> #[trigger] r.expense_percentages@[j] == (Share {
                    part: r.expense_amounts@[j],
                    whole: total(ge) as i128,
                })
            &&& max_categories is None ==> seq_sum(r.income_amounts@) == total(gi)
            &&& max_categories is None ==> seq_sum(r.expense_amounts@) == total(ge)
        }),
{
    let ms = select_movements(registry, accounts, date_range);
    let incomes = sign_entries(&ms, true);
    let expenses = sign_entries(&ms, false);
    let (ic, ia, ip) = top_categories(&incomes, max_categories);
    let (ec, ea, ep) = top_categories(&expenses, max_categories);
    CategoriesSplit {
        income_categories: ic,
        income_percentages: ip,
        income_amounts: ia,
        expense_categories: ec,
        expense_percentages: ep,
        expense_amounts: ea,
    }
}

} // verus!
