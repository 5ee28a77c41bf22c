//! Sums over keyed amounts, and the grouping of amounts by key.
use vstd::prelude::*;

use crate::date::Date;

verus! {

/// The largest magnitude of an `i64`.
pub open spec fn cap() -> int {
    0x8000_0000_0000_0000
}

/// The sum of the amounts that `s` pairs with `k`.
pub open spec fn key_sum<K>(s: Seq<(K, i64)>, k: K) -> int
    decreases s.len(),
{
    if s.len() == 0 {
        0
    } else {
        key_sum(s.drop_last(), k) + if s.last().0 == k {
            s.last().1 as int
        } else {
            0
        }
    }
}

/// Some entry of `s` has key `k`.
pub open spec fn occurs<K>(s: Seq<(K, i64)>, k: K) -> bool
    decreases s.len(),
{
    s.len() > 0 && (occurs(s.drop_last(), k) || s.last().0 == k)
}

/// The sum of all amounts of `s`.
pub open spec fn total<K>(s: Seq<(K, i64)>) -> int
    decreases s.len(),
{
    if s.len() == 0 {
        0
    } else {
        total(s.drop_last()) + s.last().1 as int
    }
}

/// The sum of the values of `s`.
pub open spec fn seq_sum(s: Seq<i128>) -> int
    decreases s.len(),
{
    if s.len() == 0 {
        0
    } else {
        seq_sum(s.drop_last()) + s.last() as int
    }
}

/// The sum of the magnitudes of the values of `s`.
pub open spec fn abs_sum(s: Seq<i128>) -> int
    decreases s.len(),
{
    if s.len() == 0 {
        0
    } else {
        abs_sum(s.drop_last()) + abs(s.last() as int)
    }
}

pub open spec fn abs(x: int) -> int {
    if x < 0 {
        -x
    } else {
        x
    }
}

/// The smallest value of `s` is `m`.
pub open spec fn is_min(s: Seq<i128>, m: i128) -> bool {
    s.contains(m) && forall|i: int| 0 <= i < s.len() ==> m <= #[trigger] s[i]
}

/// The largest value of `s` is `m`.
pub open spec fn is_max(s: Seq<i128>, m: i128) -> bool {
    s.contains(m) && forall|i: int| 0 <= i < s.len() ==> #[trigger] s[i] <= m
}

pub proof fn lemma_absent_sum_zero<K>(s: Seq<(K, i64)>, k: K)
    requires
        !occurs(s, k),
    ensures
        key_sum(s, k) == 0,
    decreases s.len(),
{
    if s.len() > 0 {
        lemma_absent_sum_zero(s.drop_last(), k);
    }
}

pub proof fn lemma_occurs_witness<K>(s: Seq<(K, i64)>, k: K) -> (i: int)
    requires
        occurs(s, k),
    ensures
        0 <= i < s.len(),
        s[i].0 == k,
    decreases s.len(),
{
    if s.last().0 == k {
        s.len() - 1
    } else {
        lemma_occurs_witness(s.drop_last(), k)
    }
}

pub proof fn lemma_sum_insert(s: Seq<i128>, p: int, x: i128)
    requires
        0 <= p <= s.len(),
    ensures
        seq_sum(s.insert(p, x)) == seq_sum(s) + x,
        abs_sum(s.insert(p, x)) == abs_sum(s) + abs(x as int),
    decreases s.len(),
{
    if p == s.len() {
        assert(s.insert(p, x).drop_last() =~= s);
    } else {
        lemma_sum_insert(s.drop_last(), p, x);
        assert(s.insert(p, x).drop_last() =~= s.drop_last().insert(p, x));
    }
}

pub proof fn lemma_sum_update(s: Seq<i128>, p: int, x: i128)
    requires
        0 <= p < s.len(),
    ensures
        seq_sum(s.update(p, x)) == seq_sum(s) - s[p] + x,
        abs_sum(s.update(p, x)) == abs_sum(s) - abs(s[p] as int) + abs(x as int),
    decreases s.len(),
{
    if p == s.len() - 1 {
        assert(s.update(p, x).drop_last() =~= s.drop_last());
    } else {
        lemma_sum_update(s.drop_last(), p, x);
        assert(s.update(p, x).drop_last() =~= s.drop_last().update(p, x));
    }
}

pub proof fn lemma_abs_sum_bounds(s: Seq<i128>)
    ensures
        abs_sum(s) >= 0,
        abs(seq_sum(s)) <= abs_sum(s),
        forall|j: int| 0 <= j < s.len() ==> abs(#[trigger] s[j] as int) <= abs_sum(s),
    decreases s.len(),
{
    if s.len() > 0 {
        lemma_abs_sum_bounds(s.drop_last());
        assert forall|j: int| 0 <= j < s.len() implies abs(#[trigger] s[j] as int) <= abs_sum(s) by {
            if j < s.len() - 1 {
                assert(s[j] == s.drop_last()[j]);
            }
        }
    }
}

pub proof fn lemma_abs_sum_prefix(s: Seq<i128>, j: int)
    requires
        0 <= j <= s.len(),
    ensures
        abs_sum(s.take(j)) <= abs_sum(s),
    decreases s.len(),
{
    if j < s.len() {
        lemma_abs_sum_prefix(s.drop_last(), j);
        assert(s.drop_last().take(j) =~= s.take(j));
        lemma_abs_sum_bounds(s.drop_last());
    } else {
        assert(s.take(j) =~= s);
    }
}

/// A product bound that keeps sums of `i64` amounts within `i128`.
pub proof fn lemma_fits_i128(n: int)
    requires
        0 <= n <= usize::MAX,
    ensures
        n * cap() < 0x7fff_ffff_ffff_ffff_ffff_ffff_ffff_ffff,
{
    assert(usize::MAX <= 0xffff_ffff_ffff_ffff);
    assert(n * 0x8000_0000_0000_0000 <= 0xffff_ffff_ffff_ffff * 0x8000_0000_0000_0000) by (nonlinear_arith)
        requires
            0 <= n <= 0xffff_ffff_ffff_ffff,
    ;
}

/// `days` holds the distinct dates of `es` in increasing order, and `sums` the sum of the
/// amounts of each.
pub open spec fn is_date_grouping(es: Seq<(Date, i64)>, days: Seq<Date>, sums: Seq<i128>) -> bool {
    &&& days.len() == sums.len()
    &&& forall|i: int, j: int| 0 <= i < j < days.len() ==> days[i].key() < days[j].key()
    &&& forall|i: int| 0 <= i < es.len() ==> days.contains(#[trigger] es[i].0)
    &&& forall|j: int| 0 <= j < days.len() ==> occurs(es, #[trigger] days[j])
    &&& forall|j: int| 0 <= j < sums.len() ==> #[trigger] sums[j] as int == key_sum(es, days[j])
}

/// Groups amounts by date: the distinct dates in increasing order, each with the sum of its
/// amounts.
pub fn group_by_date(es: &Vec<(Date, i64)>) -> (r: (Vec<Date>, Vec<i128>))
    ensures
        is_date_grouping(es@, r.0@, r.1@),
        seq_sum(r.1@) == total(es@),
        abs_sum(r.1@) <= es@.len() * cap(),
{
    let mut days: Vec<Date> = Vec::new();
    let mut sums: Vec<i128> = Vec::new();
    let mut i: usize = 0;
    while i < es.len()
        invariant
            i <= es@.len(),
            days@.len() == sums@.len(),
            forall|a: int, b: int| 0 <= a < b < days@.len() ==> days@[a].key() < days@[b].key(),
            forall|a: int| 0 <= a < i ==> days@.contains(#[trigger] es@[a].0),
            forall|j: int| 0 <= j < days@.len() ==> occurs(es@.take(i as int), #[trigger] days@[j]),
            forall|j: int|
                0 <= j < sums@.len() ==> #[trigger] sums@[j] as int == key_sum(
                    es@.take(i as int),
                    days@[j],
                ),
            seq_sum(sums@) == total(es@.take(i as int)),
            abs_sum(sums@) <= i * cap(),
        decreases es@.len() - i,
    {
        let (d, a) = es[i];
        let ghost pre = es@.take(i as int);
        let ghost post = es@.take(i as int + 1);
        proof {
            assert(post.drop_last() =~= pre);
            lemma_abs_sum_bounds(sums@);
            lemma_fits_i128(i as int + 1);
            assert((i as int + 1) * cap() == i * cap() + cap()) by (nonlinear_arith);
        }
        let mut p: usize = 0;
        while p < days.len() && days[p].is_before(&d)
            invariant
                p <= days@.len(),
                forall|j: int| 0 <= j < p ==> #[trigger] days@[j].key() < d.key(),
            decreases days@.len() - p,
        {
            p = p + 1;
        }
        if p < days.len() && days[p] == d {
            let ghost old_sums = sums@;
            let v = sums[p] + a as i128;
            sums.set(p, v);
            proof {
                lemma_sum_update(old_sums, p as int, v);
                assert forall|j: int| 0 <= j < sums@.len() implies #[trigger] sums@[j] as int
                    == key_sum(post, days@[j]) by {
                    if j != p {
                        assert(days@[j] != d);
                    }
                }
                assert forall|j: int| 0 <= j < days@.len() implies occurs(post, #[trigger] days@[j]) by {
                    assert(occurs(pre, days@[j]));
                }
                assert forall|b: int| 0 <= b < i + 1 implies days@.contains(#[trigger] es@[b].0) by {
                    if b == i {
                        assert(days@[p as int] == d);
                    }
                }
            }
        } else {
            let ghost old_days = days@;
            let ghost old_sums = sums@;
            proof {
                if p < days@.len() {
                    assert(d.key() < days@[p as int].key());
                }
                assert forall|j: int| 0 <= j < old_days.len() implies old_days[j] != d by {
                    if j < p {
                    } else {
                        assert(old_days[j].key() >= old_days[p as int].key());
                    }
                }
                if occurs(pre, d) {
                    let w = lemma_occurs_witness(pre, d);
                    assert(es@[w].0 == d);
                    assert(old_days.contains(es@[w].0));
                }
                lemma_absent_sum_zero(pre, d);
                lemma_sum_insert(old_sums, p as int, a as i128);
            }
            days.insert(p, d);
            sums.insert(p, a as i128);
            proof {
                assert forall|j: int| 0 <= j < sums@.len() implies #[trigger] sums@[j] as int
                    == key_sum(post, days@[j]) by {
                    if j < p {
                        assert(days@[j] == old_days[j]);
                    } else if j > p {
                        assert(days@[j] == old_days[j - 1]);
                        assert(sums@[j] == old_sums[j - 1]);
                    }
                }
                assert forall|j: int| 0 <= j < days@.len() implies occurs(post, #[trigger] days@[j]) by {
                    if j < p {
                        assert(occurs(pre, old_days[j]));
                    } else if j > p {
                        assert(occurs(pre, old_days[j - 1]));
                    }
                }
                assert forall|b: int| 0 <= b < i + 1 implies days@.contains(#[trigger] es@[b].0) by {
                    if b == i {
                        assert(days@[p as int] == d);
                    } else {
                        let x = choose|x: int| 0 <= x < old_days.len() && old_days[x] == es@[b].0;
                        if x < p {
                            assert(days@[x] == es@[b].0);
                        } else {
                            assert(days@[x + 1] == es@[b].0);
                        }
                    }
                }
                assert forall|a1: int, b1: int| 0 <= a1 < b1 < days@.len() implies days@[a1].key() < days@[b1].key() by {
                    if b1 < p {
                    } else if a1 > p {
                        assert(days@[a1] == old_days[a1 - 1]);
                        assert(days@[b1] == old_days[b1 - 1]);
                    } else if a1 == p {
                        assert(days@[b1] == old_days[b1 - 1]);
                        assert(old_days[b1 - 1].key() >= old_days[p as int].key());
                    } else {
                        if b1 > p {
                            assert(days@[b1] == old_days[b1 - 1]);
                            assert(old_days[b1 - 1].key() >= old_days[p as int].key());
                        }
                    }
                }
            }
        }
        i = i + 1;
    }
    proof {
        assert(es@.take(es@.len() as int) =~= es@);
    }
    (days, sums)
}

/// The smallest and the largest value of a non-empty sequence.
pub fn min_max(v: &Vec<i128>) -> (r: (i128, i128))
    requires
        v@.len() > 0,
    ensures
        is_min(v@, r.0),
        is_max(v@, r.1),
{
    let mut lo: usize = 0;
    let mut hi: usize = 0;
    let mut i: usize = 1;
    while i < v.len()
        invariant
            1 <= i <= v@.len(),
            lo < i,
            hi < i,
            forall|j: int| 0 <= j < i ==> v@[lo as int] <= #[trigger] v@[j] <= v@[hi as int],
        decreases v@.len() - i,
    {
        if v[i] < v[lo] {
            lo = i;
        }
        if v[i] > v[hi] {
            hi = i;
        }
        i = i + 1;
    }
    proof {
        assert(v@.contains(v@[lo as int]));
        assert(v@.contains(v@[hi as int]));
    }
    (v[lo], v[hi])
}

} // verus!
