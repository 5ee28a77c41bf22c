//! Laws of the registry: batch insertion does not depend on the order of the batch, and
//! merging is commutative on balances and associative.
use vstd::prelude::*;
use vstd::seq_lib::group_to_multiset_ensures;

use crate::model::account::{is_latest, lemma_latest_value};
use crate::date::{lemma_key_injective, Date};
use crate::model::registry::{
    apply_all, insert_by_date, merge_accounts, sorted_by_date, states_wf,
    AccountState, RegistryView,
};
use crate::model::transaction::{TransactionAccountName, TransactionEvent};

verus! {

/// No two transactions of `s` share a date.
pub open spec fn distinct_dates(s: Seq<TransactionEvent>) -> bool {
    forall|i: int, j: int| 0 <= i < j < s.len() ==> s[i].date != s[j].date
}

/// The transactions of `s` are in non-decreasing date order.
pub open spec fn date_sorted(s: Seq<TransactionEvent>) -> bool {
    forall|i: int, j: int| 0 <= i < j < s.len() ==> s[i].date.key() <= s[j].date.key()
}

/// The greatest date key of a history.
pub open spec fn latest_key(h: Seq<(Date, i64)>) -> int {
    h[choose|i: int| is_latest(h, i)].0.key()
}

proof fn lemma_insert_multiset(s: Seq<TransactionEvent>, t: TransactionEvent)
    ensures
        insert_by_date(s, t).to_multiset() == s.to_multiset().insert(t),
    decreases s.len(),
{
    broadcast use group_to_multiset_ensures;

    if s.len() == 0 {
        assert(seq![t] =~= Seq::<TransactionEvent>::empty().push(t));
    } else if s.last().date.key() <= t.date.key() {
    } else {
        lemma_insert_multiset(s.drop_last(), t);
        assert(s =~= s.drop_last().push(s.last()));
        assert(insert_by_date(s, t).to_multiset() =~= s.to_multiset().insert(t));
    }
}

proof fn lemma_sorted_multiset(s: Seq<TransactionEvent>)
    ensures
        sorted_by_date(s).to_multiset() == s.to_multiset(),
    decreases s.len(),
{
    broadcast use group_to_multiset_ensures;

    if s.len() > 0 {
        lemma_sorted_multiset(s.drop_last());
        lemma_insert_multiset(sorted_by_date(s.drop_last()), s.last());
        assert(s =~= s.drop_last().push(s.last()));
    }
}

proof fn lemma_insert_keeps_order(s: Seq<TransactionEvent>, t: TransactionEvent)
    requires
        date_sorted(s),
    ensures
        date_sorted(insert_by_date(s, t)),
    decreases s.len(),
{
    broadcast use group_to_multiset_ensures;

    if s.len() > 0 && t.date.key() < s.last().date.key() {
        let rest = s.drop_last();
        lemma_insert_keeps_order(rest, t);
        lemma_insert_multiset(rest, t);
        let u = insert_by_date(rest, t);
        assert forall|i: int| 0 <= i < u.len() implies #[trigger] u[i].date.key() <= s.last().date.key() by {
            assert(u.contains(u[i]));
            assert(u.to_multiset().count(u[i]) > 0);
            if u[i] != t {
                assert(rest.to_multiset().count(u[i]) > 0);
                assert(rest.contains(u[i]));
                let k = choose|k: int| 0 <= k < rest.len() && rest[k] == u[i];
                assert(s[k] == u[i]);
            }
        }
        let w = u.push(s.last());
        assert forall|i: int, j: int| 0 <= i < j < w.len() implies w[i].date.key() <= w[j].date.key() by {
            if j == w.len() - 1 {
                assert(w[i] == u[i]);
            } else {
                assert(w[i] == u[i]);
                assert(w[j] == u[j]);
            }
        }
    }
}

proof fn lemma_sorted_in_order(s: Seq<TransactionEvent>)
    ensures
        date_sorted(sorted_by_date(s)),
    decreases s.len(),
{
    if s.len() > 0 {
        lemma_sorted_in_order(s.drop_last());
        lemma_insert_keeps_order(sorted_by_date(s.drop_last()), s.last());
    }
}

proof fn lemma_distinct_dates_kept(p: Seq<TransactionEvent>, a: Seq<TransactionEvent>)
    requires
        distinct_dates(p),
        p.to_multiset() == a.to_multiset(),
    ensures
        distinct_dates(a),
{
    broadcast use group_to_multiset_ensures;

    assert(p.no_duplicates()) by {
        assert forall|i: int, j: int| 0 <= i < p.len() && 0 <= j < p.len() && i != j implies p[i] != p[j] by {
            if i < j {
                assert(p[i].date != p[j].date);
            } else {
                assert(p[j].date != p[i].date);
            }
        }
    }
    p.lemma_multiset_has_no_duplicates();
    a.lemma_multiset_has_no_duplicates_conv();
    assert forall|i: int, j: int| 0 <= i < j < a.len() implies a[i].date != a[j].date by {
        assert(a[i] != a[j]);
        assert(a.contains(a[i]));
        assert(a.contains(a[j]));
        assert(p.to_multiset().count(a[i]) > 0);
        assert(p.to_multiset().count(a[j]) > 0);
        let k = choose|k: int| 0 <= k < p.len() && p[k] == a[i];
        let l = choose|l: int| 0 <= l < p.len() && p[l] == a[j];
        if k < l {
            assert(p[k].date != p[l].date);
        } else {
            assert(p[l].date != p[k].date);
        }
    }
}

proof fn lemma_sorted_unique(a: Seq<TransactionEvent>, b: Seq<TransactionEvent>)
    requires
        date_sorted(a),
        date_sorted(b),
        distinct_dates(a),
        a.to_multiset() == b.to_multiset(),
    ensures
        a == b,
    decreases a.len(),
{
    broadcast use group_to_multiset_ensures;

    a.to_multiset_ensures();
    b.to_multiset_ensures();
    assert(a.len() == b.len());
    if a.len() == 0 {
        assert(a =~= b);
    } else {
        let n = a.len() as int;
        let x = a.last();
        let y = b.last();
        assert(a.contains(x));
        assert(b.to_multiset().count(x) > 0);
        let k = choose|k: int| 0 <= k < b.len() && b[k] == x;
        assert(b.contains(y));
        assert(a.to_multiset().count(y) > 0);
        let m = choose|m: int| 0 <= m < a.len() && a[m] == y;
        if k < n - 1 {
            assert(b[k].date.key() <= b[n - 1].date.key());
        }
        if m < n - 1 {
            assert(a[m].date.key() <= a[n - 1].date.key());
        }
        lemma_key_injective(x.date, y.date);
        if m < n - 1 {
            assert(a[m].date != a[n - 1].date);
        }
        assert(x == y);
        assert(a.remove(n - 1) =~= a.drop_last());
        assert(b.remove(n - 1) =~= b.drop_last());
        assert(a.drop_last().to_multiset() == a.to_multiset().remove(x));
        assert(b.drop_last().to_multiset() == b.to_multiset().remove(y));
        lemma_sorted_unique(a.drop_last(), b.drop_last());
        assert(a =~= a.drop_last().push(x));
        assert(b =~= b.drop_last().push(y));
    }
}

/// Recording a batch does not depend on the order of the batch when no two of its
/// transactions share a date: any two orderings of the same transactions are sorted alike, so
/// they leave the same log and the same balances.
pub proof fn lemma_batch_order_independent(
    r: RegistryView,
    p: Seq<TransactionEvent>,
    q: Seq<TransactionEvent>,
)
    requires
        p.to_multiset() == q.to_multiset(),
        distinct_dates(p),
    ensures
        sorted_by_date(p) == sorted_by_date(q),
        apply_all(r, sorted_by_date(p)) == apply_all(r, sorted_by_date(q)),
{
    lemma_sorted_multiset(p);
    lemma_sorted_multiset(q);
    lemma_sorted_in_order(p);
    lemma_sorted_in_order(q);
    lemma_distinct_dates_kept(p, sorted_by_date(p));
    lemma_sorted_unique(sorted_by_date(p), sorted_by_date(q));
}

/// A non-empty history has a latest entry.
proof fn lemma_latest_exists(h: Seq<(Date, i64)>) -> (i: int)
    requires
        h.len() > 0,
    ensures
        is_latest(h, i),
    decreases h.len(),
{
    if h.len() == 1 {
        assert forall|k: int| 0 <= k < h.len() implies #[trigger] h[k].0.key() <= h[0].0.key() by {
            assert(k == 0);
        }
        0
    } else {
        let j = lemma_latest_exists(h.drop_last());
        let n = h.len() - 1;
        if h[j].0.key() <= h[n].0.key() {
            assert forall|k: int| 0 <= k < h.len() implies #[trigger] h[k].0.key() <= h[n].0.key() by {
                if k < n {
                    assert(h[k] == h.drop_last()[k]);
                    assert(h.drop_last()[k].0.key() <= h.drop_last()[j].0.key());
                }
            }
            n
        } else {
            assert forall|k: int| 0 <= k < h.len() implies #[trigger] h[k].0.key() <= h[j].0.key() by {
                if k < n {
                    assert(h[k] == h.drop_last()[k]);
                }
            }
            assert forall|k: int| j < k < h.len() implies #[trigger] h[k].0.key() < h[j].0.key() by {
                if k < n {
                    assert(h[k] == h.drop_last()[k]);
                }
            }
            j
        }
    }
}

/// When the latest date of `x` is later than every date of `y`, the latest entry of `x + y`
/// and of `y + x` is the latest entry of `x`.
proof fn lemma_latest_dominates(x: Seq<(Date, i64)>, y: Seq<(Date, i64)>, i: int, j: int)
    requires
        is_latest(x, i),
        is_latest(y, j),
        y[j].0.key() < x[i].0.key(),
    ensures
        is_latest(x + y, i),
        is_latest(y + x, y.len() + i),
{
    let xy = x + y;
    let yx = y + x;
    assert forall|k: int| 0 <= k < xy.len() implies #[trigger] xy[k].0.key() <= xy[i].0.key() by {
        if k >= x.len() {
            assert(xy[k] == y[k - x.len()]);
        }
    }
    assert forall|k: int| i < k < xy.len() implies #[trigger] xy[k].0.key() < xy[i].0.key() by {
        if k >= x.len() {
            assert(xy[k] == y[k - x.len()]);
        }
    }
    assert forall|k: int| 0 <= k < yx.len() implies #[trigger] yx[k].0.key() <= yx[y.len() + i].0.key() by {
        if k < y.len() {
            assert(yx[k] == y[k]);
        } else {
            assert(yx[k] == x[k - y.len()]);
        }
    }
    assert forall|k: int| y.len() + i < k < yx.len() implies #[trigger] yx[k].0.key() < yx[y.len() + i].0.key() by {
        assert(yx[k] == x[k - y.len()]);
    }
}

/// Merging two account maps is commutative on balances, provided that no account known to
/// both has the same latest date in both (where it has, the later operand's record of that
/// date wins).
pub proof fn lemma_merge_commutative(
    a: Map<TransactionAccountName, AccountState>,
    b: Map<TransactionAccountName, AccountState>,
)
    requires
        states_wf(a),
        states_wf(b),
        forall|n: TransactionAccountName|
            a.contains_key(n) && b.contains_key(n) ==> latest_key(#[trigger] a[n].history)
                != latest_key(b[n].history),
    ensures
        merge_accounts(a, b).dom() == merge_accounts(b, a).dom(),
        forall|n: TransactionAccountName|
            #[trigger] merge_accounts(a, b).contains_key(n) ==> merge_accounts(a, b)[n].current_value
                == merge_accounts(b, a)[n].current_value,
{
    assert(merge_accounts(a, b).dom() =~= merge_accounts(b, a).dom());
    assert forall|n: TransactionAccountName| #[trigger] merge_accounts(a, b).contains_key(n) implies merge_accounts(a, b)[n].current_value
        == merge_accounts(b, a)[n].current_value by {
        if a.contains_key(n) && b.contains_key(n) {
            let x = a[n].history;
            let y = b[n].history;
            let i = lemma_latest_exists(x);
            let j = lemma_latest_exists(y);
            lemma_latest_value(x, i);
            lemma_latest_value(y, j);
            let ci = choose|k: int| is_latest(x, k);
            let cj = choose|k: int| is_latest(y, k);
            crate::model::account::lemma_latest_unique(x, i, ci);
            crate::model::account::lemma_latest_unique(y, j, cj);
            if y[j].0.key() < x[i].0.key() {
                lemma_latest_dominates(x, y, i, j);
                lemma_latest_value(x + y, i);
                lemma_latest_value(y + x, y.len() + i);
            } else {
                lemma_latest_dominates(y, x, j, i);
                lemma_latest_value(y + x, j);
                lemma_latest_value(x + y, x.len() + j);
            }
        }
    }
}

/// Merging account maps is associative: the histories concatenate in the same order either
/// way, and each balance is taken from the history.
pub proof fn lemma_merge_associative(
    a: Map<TransactionAccountName, AccountState>,
    b: Map<TransactionAccountName, AccountState>,
    c: Map<TransactionAccountName, AccountState>,
)
    ensures
        merge_accounts(merge_accounts(a, b), c) == merge_accounts(a, merge_accounts(b, c)),
{
    let l = merge_accounts(merge_accounts(a, b), c);
    let r = merge_accounts(a, merge_accounts(b, c));
    assert forall|n: TransactionAccountName| #[trigger] l.contains_key(n) implies l[n] == r[n] by {
        if a.contains_key(n) && b.contains_key(n) && c.contains_key(n) {
            assert(a[n].history + b[n].history + c[n].history =~= a[n].history + (b[n].history
                + c[n].history));
        }
    }
    assert(l =~= r);
}

/// Merging registries is associative: the logs concatenate in the same order either way, and
/// the account maps merge alike.
pub proof fn lemma_registry_merge_associative(a: RegistryView, b: RegistryView, c: RegistryView)
    ensures
        (a.transactions + b.transactions) + c.transactions == a.transactions + (b.transactions
            + c.transactions),
        merge_accounts(merge_accounts(a.accounts, b.accounts), c.accounts) == merge_accounts(
            a.accounts,
            merge_accounts(b.accounts, c.accounts),
        ),
{
    assert((a.transactions + b.transactions) + c.transactions =~= a.transactions + (b.transactions
        + c.transactions));
    lemma_merge_associative(a.accounts, b.accounts, c.accounts);
}

} // verus!
