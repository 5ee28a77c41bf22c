//! Per-category sums, ranked by amount.
use vstd::prelude::*;

use crate::sums::{
    abs_sum, cap, key_sum, lemma_abs_sum_bounds, lemma_absent_sum_zero, lemma_fits_i128,
    lemma_occurs_witness, lemma_sum_insert, lemma_sum_update, occurs, seq_sum,
    total,
};
use crate::model::transaction::TransactionCategory;

verus! {

/// The amounts of a list of `(category, sum)` pairs.
pub open spec fn amounts_of(r: Seq<(TransactionCategory, i128)>) -> Seq<i128> {
    r.map_values(|p: (TransactionCategory, i128)| p.1)
}

/// The categories of a list of `(category, sum)` pairs.
pub open spec fn categories_of(r: Seq<(TransactionCategory, i128)>) -> Seq<TransactionCategory> {
    r.map_values(|p: (TransactionCategory, i128)| p.0)
}

/// `r` pairs each category of `g` exactly once with the sum of its amounts in `g`.
pub open spec fn is_grouping(g: Seq<(TransactionCategory, i64)>, r: Seq<(TransactionCategory, i128)>) -> bool {
    &&& forall|i: int, j: int| 0 <= i < j < r.len() ==> r[i].0 != r[j].0
    &&& forall|i: int| 0 <= i < g.len() ==> categories_of(r).contains(#[trigger] g[i].0)
    &&& forall|j: int| 0 <= j < r.len() ==> occurs(g, #[trigger] r[j].0)
    &&& forall|j: int| 0 <= j < r.len() ==> #[trigger] r[j].1 as int == key_sum(g, r[j].0)
}

/// A grouping of `g` by category, in increasing order of sum.
pub open spec fn is_ranking(g: Seq<(TransactionCategory, i64)>, r: Seq<(TransactionCategory, i128)>) -> bool {
    &&& is_grouping(g, r)
    &&& forall|i: int, j: int| 0 <= i < j < r.len() ==> r[i].1 <= r[j].1
}

/// How many entries of `n` a limit keeps.
pub open spec fn kept(limit: Option<usize>, n: int) -> int {
    match limit {
        Some(k) => if k < n { k as int } else { n },
        None => n,
    }
}

/// `cats` and `amounts` are the first entries, as many as `limit` keeps, of the ranking `full`
/// of `g`.
pub open spec fn is_top_of(
    g: Seq<(TransactionCategory, i64)>,
    full: Seq<(TransactionCategory, i128)>,
    limit: Option<usize>,
    cats: Seq<TransactionCategory>,
    amounts: Seq<i128>,
) -> bool {
    &&& is_ranking(g, full)
    &&& cats == categories_of(full.take(kept(limit, full.len() as int)))
    &&& amounts == amounts_of(full.take(kept(limit, full.len() as int)))
}

/// `cats` and `amounts` are the first entries, as many as `limit` keeps, of a ranking of `g`.
pub open spec fn is_top(
    g: Seq<(TransactionCategory, i64)>,
    limit: Option<usize>,
    cats: Seq<TransactionCategory>,
    amounts: Seq<i128>,
) -> bool {
    exists|full: Seq<(TransactionCategory, i128)>| #[trigger] is_top_of(g, full, limit, cats, amounts)
}

proof fn lemma_contains_insert<A>(s: Seq<A>, p: int, x: A, y: A)
    requires
        0 <= p <= s.len(),
        s.contains(y),
    ensures
        s.insert(p, x).contains(y),
{
    let j = choose|j: int| 0 <= j < s.len() && s[j] == y;
    if j < p {
        assert(s.insert(p, x)[j] == y);
    } else {
        assert(s.insert(p, x)[j + 1] == y);
    }
}

/// Sums the amounts of `g` per category, in order of first appearance.
fn group_by_category(g: &Vec<(TransactionCategory, i64)>) -> (r: Vec<(TransactionCategory, i128)>)
    ensures
        is_grouping(g@, r@),
        seq_sum(amounts_of(r@)) == total(g@),
        abs_sum(amounts_of(r@)) <= g@.len() * cap(),
{
    let mut r: Vec<(TransactionCategory, i128)> = Vec::new();
    let mut i: usize = 0;
    while i < g.len()
        invariant
            i <= g@.len(),
            is_grouping(g@.take(i as int), r@),
            seq_sum(amounts_of(r@)) == total(g@.take(i as int)),
            abs_sum(amounts_of(r@)) <= i * cap(),
        decreases g@.len() - i,
    {
        let (c, a) = g[i];
        let ghost pre = g@.take(i as int);
        let ghost post = g@.take(i as int + 1);
        let ghost old_r = r@;
        proof {
            assert(post.drop_last() =~= pre);
            lemma_abs_sum_bounds(amounts_of(r@));
            lemma_fits_i128(i as int + 1);
            assert((i as int + 1) * cap() == i * cap() + cap()) by (nonlinear_arith);
            assert forall|b: int| 0 <= b < i implies categories_of(r@).contains(#[trigger] post[b].0) by {
                assert(post[b] == pre[b]);
            }
        }
        let mut p: usize = 0;
        while p < r.len() && r[p].0 != c
            invariant
                p <= r@.len(),
                r@ == old_r,
                forall|j: int| 0 <= j < p ==> #[trigger] r@[j].0 != c,
            decreases r@.len() - p,
        {
            p = p + 1;
        }
        if p < r.len() {
            proof {
                assert(amounts_of(old_r)[p as int] == old_r[p as int].1);
            }
            let v = r[p].1 + a as i128;
            r.set(p, (c, v));
            proof {
                assert(amounts_of(r@) =~= amounts_of(old_r).update(p as int, v));
                assert(categories_of(r@) =~= categories_of(old_r));
                lemma_sum_update(amounts_of(old_r), p as int, v);
                assert(amounts_of(old_r)[p as int] == old_r[p as int].1);
                assert forall|j: int| 0 <= j < r@.len() implies #[trigger] r@[j].1 as int == key_sum(post, r@[j].0) by {
                    if j != p {
                        assert(r@[j] == old_r[j]);
                    }
                }
                assert forall|j: int| 0 <= j < r@.len() implies occurs(post, #[trigger] r@[j].0) by {
                    assert(r@[j].0 == old_r[j].0);
                    assert(occurs(pre, old_r[j].0));
                }
                assert(categories_of(r@)[p as int] == c);
            }
        } else {
            proof {
                if occurs(pre, c) {
                    let w = lemma_occurs_witness(pre, c);
                    assert(categories_of(old_r).contains(pre[w].0));
                }
                lemma_absent_sum_zero(pre, c);
                lemma_sum_insert(amounts_of(old_r), old_r.len() as int, a as i128);
                assert(amounts_of(old_r.push((c, a as i128))) =~= amounts_of(old_r).insert(
                    old_r.len() as int,
                    a as i128,
                ));
            }
            r.push((c, a as i128));
            proof {
                assert(categories_of(r@) =~= categories_of(old_r).push(c));
                assert(categories_of(old_r).push(c) =~= categories_of(old_r).insert(old_r.len() as int, c));
                assert forall|b: int| 0 <= b < i implies categories_of(r@).contains(#[trigger] post[b].0) by {
                    lemma_contains_insert(categories_of(old_r), old_r.len() as int, c, post[b].0);
                }
                assert(categories_of(r@)[old_r.len() as int] == c);
                assert forall|j: int| 0 <= j < r@.len() implies occurs(post, #[trigger] r@[j].0) by {
                    if j < old_r.len() {
                        assert(occurs(pre, old_r[j].0));
                    }
                }
                assert forall|j: int| 0 <= j < r@.len() implies #[trigger] r@[j].1 as int == key_sum(post, r@[j].0) by {
                    if j < old_r.len() {
                        assert(r@[j] == old_r[j]);
                    }
                }
            }
        }
        i = i + 1;
    }
    proof {
        assert(g@.take(g@.len() as int) =~= g@);
    }
    r
}


#[verifier::rlimit(60)]
proof fn lemma_sorted_insert(
    g: Seq<(TransactionCategory, i64)>,
    all: Seq<(TransactionCategory, i128)>,
    k: int,
    old_out: Seq<(TransactionCategory, i128)>,
    p: int,
)
    requires
        0 <= k < all.len(),
        0 <= p <= old_out.len(),
        is_grouping(g, all),
        old_out.len() == k,
        forall|j: int| 0 <= j < old_out.len() ==> all.take(k).contains(#[trigger] old_out[j]),
        forall|m: int| 0 <= m < k ==> old_out.contains(#[trigger] all[m]),
        forall|a: int, b: int| 0 <= a < b < old_out.len() ==> old_out[a].0 != old_out[b].0,
        forall|a: int, b: int| 0 <= a < b < old_out.len() ==> old_out[a].1 <= old_out[b].1,
        forall|j: int| 0 <= j < old_out.len() ==> occurs(g, #[trigger] old_out[j].0),
        forall|j: int| 0 <= j < old_out.len() ==> #[trigger] old_out[j].1 as int == key_sum(g, old_out[j].0),
        p == 0 || old_out[p - 1].1 <= all[k].1,
        forall|j: int| p <= j < old_out.len() ==> all[k].1 < #[trigger] old_out[j].1,
    ensures
        ({
            let out = old_out.insert(p, all[k]);
            &&& forall|j: int| 0 <= j < out.len() ==> all.take(k + 1).contains(#[trigger] out[j])
            &&& forall|m: int| 0 <= m < k + 1 ==> out.contains(#[trigger] all[m])
            &&& forall|a: int, b: int| 0 <= a < b < out.len() ==> out[a].0 != out[b].0
            &&& forall|a: int, b: int| 0 <= a < b < out.len() ==> out[a].1 <= out[b].1
            &&& forall|j: int| 0 <= j < out.len() ==> occurs(g, #[trigger] out[j].0)
            &&& forall|j: int| 0 <= j < out.len() ==> #[trigger] out[j].1 as int == key_sum(g, out[j].0)
        }),
{
    let x = all[k];
    let out = old_out.insert(p, x);
            let post = all.take(k + 1);
            assert forall|j: int| 0 <= j < out.len() implies post.contains(#[trigger] out[j]) by {
                if j == p {
                    assert(post[k] == x);
                } else {
                    let y = if j < p { old_out[j] } else { old_out[j - 1] };
                    assert(out[j] == y);
                    assert(all.take(k).contains(y));
                    let w = choose|w: int| 0 <= w < k && all.take(k)[w] == y;
                    assert(post[w] == y);
                }
            }
            assert forall|m: int| 0 <= m < k + 1 implies out.contains(#[trigger] all[m]) by {
                if m == k {
                    assert(out[p] == x);
                } else {
                    lemma_contains_insert(old_out, p, x, all[m]);
                }
            }
            assert forall|a: int, b: int| 0 <= a < b < out.len() implies out[a].0 != out[b].0 by {
                if a == p || b == p {
                    let o = if a == p { b } else { a };
                    let y = out[o];
                    assert(o != p);
                    let y2 = if o < p { old_out[o] } else { old_out[o - 1] };
                    assert(y == y2);
                    assert(all.take(k).contains(y));
                    let w = choose|w: int| 0 <= w < k && all.take(k)[w] == y;
                    assert(all[w] == y);
                    assert(all[w].0 != all[k].0);
                } else {
                    let a2 = if a < p { a } else { a - 1 };
                    let b2 = if b < p { b } else { b - 1 };
                    assert(out[a] == old_out[a2]);
                    assert(out[b] == old_out[b2]);
                }
            }
            assert forall|a: int, b: int| 0 <= a < b < out.len() implies out[a].1 <= out[b].1 by {
                if a == p {
                    assert(out[b] == old_out[b - 1]);
                } else if b == p {
                    assert(out[a] == old_out[a]);
                    if p > 0 {
                        assert(old_out[a].1 <= old_out[p - 1].1);
                    }
                } else {
                    let a2 = if a < p { a } else { a - 1 };
                    let b2 = if b < p { b } else { b - 1 };
                    assert(out[a] == old_out[a2]);
                    assert(out[b] == old_out[b2]);
                }
            }
            assert forall|j: int| 0 <= j < out.len() implies occurs(g, #[trigger] out[j].0) && out[j].1 as int == key_sum(g, out[j].0) by {
                if j == p {
                    assert(occurs(g, all[k].0));
                } else if j < p {
                    assert(out[j] == old_out[j]);
                } else {
                    assert(out[j] == old_out[j - 1]);
                }
            }
}

/// Orders a grouping by increasing sum; pairs of equal sums keep their order.
fn sort_by_amount(g: Ghost<Seq<(TransactionCategory, i64)>>, v: Vec<(TransactionCategory, i128)>) -> (r: Vec<(TransactionCategory, i128)>)
    requires
        is_grouping(g@, v@),
    ensures
        is_ranking(g@, r@),
        seq_sum(amounts_of(r@)) == seq_sum(amounts_of(v@)),
        abs_sum(amounts_of(r@)) == abs_sum(amounts_of(v@)),
{
    let ghost all = v@;
    let mut out: Vec<(TransactionCategory, i128)> = Vec::new();
    for x in it: v
        invariant
            it.seq() == all,
            is_grouping(g@, all),
            out@.len() == it.index(),
            forall|j: int| 0 <= j < out@.len() ==> all.take(it.index() as int).contains(#[trigger] out@[j]),
            forall|m: int| 0 <= m < it.index() ==> out@.contains(#[trigger] all[m]),
            forall|a: int, b: int| 0 <= a < b < out@.len() ==> out@[a].0 != out@[b].0,
            forall|a: int, b: int| 0 <= a < b < out@.len() ==> out@[a].1 <= out@[b].1,
            forall|j: int| 0 <= j < out@.len() ==> occurs(g@, #[trigger] out@[j].0),
            forall|j: int| 0 <= j < out@.len() ==> #[trigger] out@[j].1 as int == key_sum(g@, out@[j].0),
            seq_sum(amounts_of(out@)) == seq_sum(amounts_of(all.take(it.index() as int))),
            abs_sum(amounts_of(out@)) == abs_sum(amounts_of(all.take(it.index() as int))),
    {
        let ghost k = it.index() as int;
        let ghost old_out = out@;
        let mut p: usize = out.len();
        while p > 0 && x.1 < out[p - 1].1
            invariant
                p <= out@.len(),
                out@ == old_out,
                forall|j: int| p <= j < out@.len() ==> x.1 < #[trigger] out@[j].1,
            decreases p,
        {
            p = p - 1;
        }
        proof {
            assert(x == all[k]);
            assert(all.take(k + 1).drop_last() =~= all.take(k));
            assert(amounts_of(all.take(k + 1)) =~= amounts_of(all.take(k)).push(x.1));
            lemma_sum_insert(amounts_of(old_out), p as int, x.1);
            assert(amounts_of(old_out.insert(p as int, x)) =~= amounts_of(old_out).insert(p as int, x.1));
            assert(amounts_of(all.take(k)).push(x.1) =~= amounts_of(all.take(k)).insert(k, x.1));
            lemma_sum_insert(amounts_of(all.take(k)), k, x.1);
        }
        out.insert(p, x);
        proof {
            lemma_sorted_insert(g@, all, k, old_out, p as int);
        }
    }
    proof {
        assert(all.take(all.len() as int) =~= all);
        assert forall|i: int| 0 <= i < g@.len() implies categories_of(out@).contains(#[trigger] g@[i].0) by {
            assert(categories_of(all).contains(g@[i].0));
            let w = choose|w: int| 0 <= w < all.len() && categories_of(all)[w] == g@[i].0;
            assert(out@.contains(all[w]));
            let z = choose|z: int| 0 <= z < out@.len() && out@[z] == all[w];
            assert(categories_of(out@)[z] == g@[i].0);
        }
    }
    out
}

/// The categories of `g` with their sums, in increasing order of sum.
pub fn rank_categories(g: &Vec<(TransactionCategory, i64)>) -> (r: Vec<(TransactionCategory, i128)>)
    ensures
        is_ranking(g@, r@),
        seq_sum(amounts_of(r@)) == total(g@),
        abs_sum(amounts_of(r@)) <= g@.len() * cap(),
{
    let grouped = group_by_category(g);
    sort_by_amount(Ghost(g@), grouped)
}

} // verus!
