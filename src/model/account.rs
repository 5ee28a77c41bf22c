//! Accounts: a named balance with the history of the values it took.
use vstd::prelude::*;

use crate::date::Date;
use crate::model::transaction::TransactionAccountName;

verus! {

/// Entry `i` of `h` holds the greatest date, and no later entry holds that date too.
pub open spec fn is_latest(h: Seq<(Date, i64)>, i: int) -> bool {
    &&& 0 <= i < h.len()
    &&& forall|j: int| 0 <= j < h.len() ==> #[trigger] h[j].0.key() <= h[i].0.key()
    &&& forall|j: int| i < j < h.len() ==> #[trigger] h[j].0.key() < h[i].0.key()
}

/// Entry `i` of `h` holds the smallest date, and no earlier entry holds that date too.
pub open spec fn is_earliest(h: Seq<(Date, i64)>, i: int) -> bool {
    &&& 0 <= i < h.len()
    &&& forall|j: int| 0 <= j < h.len() ==> h[i].0.key() <= #[trigger] h[j].0.key()
    &&& forall|j: int| 0 <= j < i ==> h[i].0.key() < #[trigger] h[j].0.key()
}

/// The value recorded at the latest date of `h` (the last one recorded for that date).
pub open spec fn latest_value(h: Seq<(Date, i64)>) -> i64 {
    h[choose|i: int| is_latest(h, i)].1
}

/// The value recorded at the earliest date of `h` (the first one recorded for that date).
pub open spec fn earliest_value(h: Seq<(Date, i64)>) -> i64 {
    h[choose|i: int| is_earliest(h, i)].1
}

/// At most one entry is the latest one.
pub proof fn lemma_latest_unique(h: Seq<(Date, i64)>, i: int, k: int)
    requires
        is_latest(h, i),
        is_latest(h, k),
    ensures
        i == k,
{
    if i < k {
        assert(h[k].0.key() < h[i].0.key());
        assert(h[i].0.key() <= h[k].0.key());
    } else if k < i {
        assert(h[i].0.key() < h[k].0.key());
        assert(h[k].0.key() <= h[i].0.key());
    }
}

/// The latest value is the one of the latest entry.
pub proof fn lemma_latest_value(h: Seq<(Date, i64)>, i: int)
    requires
        is_latest(h, i),
    ensures
        latest_value(h) == h[i].1,
{
    let k = choose|k: int| is_latest(h, k);
    lemma_latest_unique(h, i, k);
}

/// The earliest value is the one of the earliest entry.
pub proof fn lemma_earliest_value(h: Seq<(Date, i64)>, i: int)
    requires
        is_earliest(h, i),
    ensures
        earliest_value(h) == h[i].1,
{
    let k = choose|k: int| is_earliest(h, k);
    if i < k {
        assert(h[k].0.key() < h[i].0.key());
        assert(h[k].0.key() <= h[i].0.key());
    } else if k < i {
        assert(h[i].0.key() < h[k].0.key());
        assert(h[i].0.key() <= h[k].0.key());
    }
}

/// The position of the latest entry of a non-empty history.
fn latest_index(h: &Vec<(Date, i64)>) -> (r: usize)
    requires
        h@.len() > 0,
    ensures
        is_latest(h@, r as int),
{
    let mut best: usize = 0;
    let mut i: usize = 1;
    while i < h.len()
        invariant
            1 <= i <= h@.len(),
            best < i,
            forall|j: int| 0 <= j < i ==> #[trigger] h@[j].0.key() <= h@[best as int].0.key(),
            forall|j: int| best < j < i ==> #[trigger] h@[j].0.key() < h@[best as int].0.key(),
        decreases h@.len() - i,
    {
        if h[best].0.is_on_or_before(&h[i].0) {
            best = i;
        }
        i = i + 1;
    }
    best
}

/// The position of the earliest entry of a non-empty history.
fn earliest_index(h: &Vec<(Date, i64)>) -> (r: usize)
    requires
        h@.len() > 0,
    ensures
        is_earliest(h@, r as int),
{
    let mut best: usize = 0;
    let mut i: usize = 1;
    while i < h.len()
        invariant
            1 <= i <= h@.len(),
            best < i,
            forall|j: int| 0 <= j < i ==> h@[best as int].0.key() <= #[trigger] h@[j].0.key(),
            forall|j: int| 0 <= j < best ==> h@[best as int].0.key() < #[trigger] h@[j].0.key(),
        decreases h@.len() - i,
    {
        if h[i].0.is_before(&h[best].0) {
            best = i;
        }
        i = i + 1;
    }
    best
}

/// Two accounts of different names cannot be merged.
#[derive(Clone, Copy, Debug, PartialEq, Eq, Structural)]
pub struct AccountMismatch {
    pub left: TransactionAccountName,
    pub right: TransactionAccountName,
}

/// A named balance with the `(date, value)` pairs it took, in the order they were recorded.
/// Values are in cents.
pub struct Account {
    pub name: TransactionAccountName,
    pub current_value: i64,
    pub history: Vec<(Date, i64)>,
}

impl Account {
    /// The history is never empty.
    pub open spec fn wf(&self) -> bool {
        self.history@.len() > 0
    }

    /// An account whose history is the single pair `(date, value)`.
    pub fn new(name: TransactionAccountName, value: i64, date: Date) -> (r: Account)
        ensures
            r.wf(),
            r.name == name,
            r.current_value == value,
            r.history@ == seq![(date, value)],
    {
        let history = vec![(date, value)];
        proof {
            assert(history@ =~= seq![(date, value)]);
        }
        Account { name, current_value: value, history }
    }

    /// Records `new_value` at `date` and makes it the current value.
    pub fn set_value(&mut self, new_value: i64, date: Date)
        ensures
            final(self).name == old(self).name,
            final(self).current_value == new_value,
            final(self).history@ == old(self).history@.push((date, new_value)),
    {
        self.history.push((date, new_value));
        self.current_value = new_value;
    }

    /// The value recorded at the earliest date, whatever the order of recording.
    pub fn get_initial_value(&self) -> (r: i64)
        requires
            self.wf(),
        ensures
            r == earliest_value(self.history@),
    {
        let i = earliest_index(&self.history);
        proof {
            lemma_earliest_value(self.history@, i as int);
        }
        self.history[i].1
    }

    /// Combines two records of the same account: the histories are concatenated and the
    /// current value becomes the one recorded at the latest date.
    pub fn merge(self, other: Account) -> (r: Result<Account, AccountMismatch>)
        requires
            self.wf(),
            other.wf(),
        ensures
            self.name != other.name <==> r is Err,
            r is Err ==> r->Err_0 == (AccountMismatch { left: self.name, right: other.name }),
            r is Ok ==> {
                let a = r->Ok_0;
                &&& a.wf()
                &&& a.name == self.name
                &&& a.history@ == self.history@ + other.history@
                &&& a.current_value == latest_value(self.history@ + other.history@)
            },
    {
        if self.name != other.name {
            return Err(AccountMismatch { left: self.name, right: other.name });
        }
        let ghost h = self.history@ + other.history@;
        let mut history = self.history;
        let mut rest = other.history;
        history.append(&mut rest);
        proof {
            assert(history@ =~= h);
        }
        let i = latest_index(&history);
        proof {
            lemma_latest_value(history@, i as int);
        }
        let current_value = history[i].1;
        Ok(Account { name: self.name, current_value, history })
    }
}

/// Two accounts are the same account when their names are equal, whatever their values.
impl PartialEq for Account {
    fn eq(&self, other: &Account) -> (r: bool)
        ensures
            r == (self.name == other.name),
    {
        self.name == other.name
    }
}

impl vstd::std_specs::cmp::PartialEqSpecImpl for Account {
    open spec fn obeys_eq_spec() -> bool {
        true
    }

    open spec fn eq_spec(&self, other: &Account) -> bool {
        self.name == other.name
    }
}

} // verus!
