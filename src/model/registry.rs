//! The registry: the transaction log and the balance of every account it touches.
use vstd::prelude::*;

use crate::model::account::{earliest_value, latest_value, Account, AccountMismatch};
use crate::date::Date;
use crate::model::transaction::{TransactionAccountName, TransactionEvent, ACCOUNT_COUNT};

verus! {

/// What an account holds, apart from its name.
pub struct AccountState {
    pub current_value: i64,
    pub history: Seq<(Date, i64)>,
}

impl View for Account {
    type V = AccountState;

    open spec fn view(&self) -> AccountState {
        AccountState { current_value: self.current_value, history: self.history@ }
    }
}

/// What a registry holds: its transaction log, and the state of each known account.
pub struct RegistryView {
    pub transactions: Seq<TransactionEvent>,
    pub accounts: Map<TransactionAccountName, AccountState>,
}

/// Every account state has a history.
pub open spec fn states_wf(m: Map<TransactionAccountName, AccountState>) -> bool {
    forall|n: TransactionAccountName| #[trigger] m.contains_key(n) ==> m[n].history.len() > 0
}

/// The state of an account after `amount` moved on it at `date`; a new account starts at
/// `amount`.
pub open spec fn after_movement(
    m: Map<TransactionAccountName, AccountState>,
    name: TransactionAccountName,
    date: Date,
    amount: i64,
) -> AccountState {
    if m.contains_key(name) {
        let v = (m[name].current_value + amount) as i64;
        AccountState { current_value: v, history: m[name].history.push((date, v)) }
    } else {
        AccountState { current_value: amount, history: seq![(date, amount)] }
    }
}

/// The registry after `t` is recorded.
pub open spec fn apply_transaction(r: RegistryView, t: TransactionEvent) -> RegistryView {
    RegistryView {
        transactions: r.transactions.push(t),
        accounts: r.accounts.insert(t.account, after_movement(r.accounts, t.account, t.date, t.amount)),
    }
}

/// Recording `t` keeps the balance of its account within `i64`.
pub open spec fn transaction_fits(r: RegistryView, t: TransactionEvent) -> bool {
    r.accounts.contains_key(t.account) ==> i64::MIN <= r.accounts[t.account].current_value
        + t.amount <= i64::MAX
}

/// The registry after the transactions of `s` are recorded in order.
pub open spec fn apply_all(r: RegistryView, s: Seq<TransactionEvent>) -> RegistryView
    decreases s.len(),
{
    if s.len() == 0 {
        r
    } else {
        apply_transaction(apply_all(r, s.drop_last()), s.last())
    }
}

/// Recording the transactions of `s` in order keeps every balance within `i64`.
pub open spec fn all_fit(r: RegistryView, s: Seq<TransactionEvent>) -> bool
    decreases s.len(),
{
    if s.len() == 0 {
        true
    } else {
        all_fit(r, s.drop_last()) && transaction_fits(apply_all(r, s.drop_last()), s.last())
    }
}

/// The accounts that the seed list gives; a later seed of a name replaces an earlier one.
pub open spec fn seed_accounts(s: Seq<Account>) -> Map<TransactionAccountName, AccountState>
    decreases s.len(),
{
    if s.len() == 0 {
        Map::empty()
    } else {
        seed_accounts(s.drop_last()).insert(s.last().name, s.last()@)
    }
}

/// The opening balance of account `n`, or 0 for an unknown account.
pub open spec fn initial_of(m: Map<TransactionAccountName, AccountState>, n: TransactionAccountName) -> int {
    if m.contains_key(n) {
        earliest_value(m[n].history) as int
    } else {
        0
    }
}

/// The sum of the opening balances of the accounts named in `names`.
pub open spec fn initial_sum(
    m: Map<TransactionAccountName, AccountState>,
    names: Seq<TransactionAccountName>,
) -> int
    decreases names.len(),
{
    if names.len() == 0 {
        0
    } else {
        initial_sum(m, names.drop_last()) + initial_of(m, names.last())
    }
}

/// Every account, in declaration order.
pub open spec fn all_account_names() -> Seq<TransactionAccountName> {
    seq![
        TransactionAccountName::Ale,
        TransactionAccountName::BuonoPasto,
        TransactionAccountName::CartaAle,
        TransactionAccountName::CartaGiulia,
        TransactionAccountName::Contante,
        TransactionAccountName::Giulia,
    ]
}

/// The accounts among the first `k` of the declaration order that `m` knows, in that order.
pub open spec fn known_names(m: Map<TransactionAccountName, AccountState>, k: int) -> Seq<
    TransactionAccountName,
>
    decreases k,
{
    if k <= 0 {
        Seq::empty()
    } else if m.contains_key(TransactionAccountName::spec_from_slot(k - 1)) {
        known_names(m, k - 1).push(TransactionAccountName::spec_from_slot(k - 1))
    } else {
        known_names(m, k - 1)
    }
}


/// `s` with `t` placed after every entry dated on or before `t`'s date.
pub open spec fn insert_by_date(s: Seq<TransactionEvent>, t: TransactionEvent) -> Seq<TransactionEvent>
    decreases s.len(),
{
    if s.len() == 0 {
        seq![t]
    } else if s.last().date.key() <= t.date.key() {
        s.push(t)
    } else {
        insert_by_date(s.drop_last(), t).push(s.last())
    }
}

/// `s` stably sorted by date: entries of equal dates keep their relative order.
pub open spec fn sorted_by_date(s: Seq<TransactionEvent>) -> Seq<TransactionEvent>
    decreases s.len(),
{
    if s.len() == 0 {
        s
    } else {
        insert_by_date(sorted_by_date(s.drop_last()), s.last())
    }
}

proof fn lemma_insert_at(s: Seq<TransactionEvent>, t: TransactionEvent, p: int)
    requires
        0 <= p <= s.len(),
        p == 0 || s[p - 1].date.key() <= t.date.key(),
        forall|j: int| p <= j < s.len() ==> t.date.key() < #[trigger] s[j].date.key(),
    ensures
        insert_by_date(s, t) == s.insert(p, t),
    decreases s.len(),
{
    if s.len() == 0 {
        assert(s.insert(p, t) =~= seq![t]);
    } else if p == s.len() {
        assert(s.insert(p, t) =~= s.push(t));
    } else {
        assert(t.date.key() < s.last().date.key());
        lemma_insert_at(s.drop_last(), t, p);
        assert(s.drop_last().insert(p, t).push(s.last()) =~= s.insert(p, t));
    }
}

proof fn lemma_all_fit_step(r: RegistryView, s: Seq<TransactionEvent>, k: int)
    requires
        all_fit(r, s),
        0 <= k < s.len(),
    ensures
        transaction_fits(apply_all(r, s.take(k)), s[k]),
    decreases s.len(),
{
    if k == s.len() - 1 {
        assert(s.take(k) =~= s.drop_last());
    } else {
        lemma_all_fit_step(r, s.drop_last(), k);
        assert(s.drop_last().take(k) =~= s.take(k));
    }
}

/// `s` stably sorted by date.
fn sort_by_date(ts: Vec<TransactionEvent>) -> (r: Vec<TransactionEvent>)
    ensures
        r@ == sorted_by_date(ts@),
{
    let ghost all = ts@;
    let mut out: Vec<TransactionEvent> = Vec::new();
    for t in it: ts
        invariant
            it.seq() == all,
            out@ == sorted_by_date(all.take(it.index() as int)),
    {
        let ghost k = it.index() as int;
        let mut p: usize = out.len();
        while p > 0 && t.date.is_before(&out[p - 1].date)
            invariant
                p <= out@.len(),
                forall|j: int| p <= j < out@.len() ==> t.date.key() < #[trigger] out@[j].date.key(),
            decreases p,
        {
            p = p - 1;
        }
        proof {
            lemma_insert_at(out@, t, p as int);
            assert(all.take(k + 1).drop_last() =~= all.take(k));
        }
        out.insert(p, t);
    }
    proof {
        assert(all.take(all.len() as int) =~= all);
    }
    out
}

/// Two records of one account combined: histories concatenated, the current value taken at
/// the latest date.
pub open spec fn merged_state(x: AccountState, y: AccountState) -> AccountState {
    AccountState {
        current_value: latest_value(x.history + y.history),
        history: x.history + y.history,
    }
}

/// The union of two account maps, combining the accounts that both hold.
pub open spec fn merge_accounts(
    a: Map<TransactionAccountName, AccountState>,
    b: Map<TransactionAccountName, AccountState>,
) -> Map<TransactionAccountName, AccountState> {
    Map::new(
        |n: TransactionAccountName| a.contains_key(n) || b.contains_key(n),
        |n: TransactionAccountName|
            if a.contains_key(n) && b.contains_key(n) {
                merged_state(a[n], b[n])
            } else if a.contains_key(n) {
                a[n]
            } else {
                b[n]
            },
    )
}

proof fn lemma_all_fit_prefix(r: RegistryView, s: Seq<TransactionEvent>, k: int)
    requires
        0 <= k <= s.len(),
        all_fit(r, s),
    ensures
        all_fit(r, s.take(k)),
    decreases s.len(),
{
    if k == s.len() {
        assert(s.take(k) =~= s);
    } else {
        lemma_all_fit_prefix(r, s.drop_last(), k);
        assert(s.drop_last().take(k) =~= s.take(k));
    }
}

/// A balance would leave the range of `i64`.
#[derive(Clone, Copy, Debug, PartialEq, Eq, Structural)]
pub struct BalanceOverflow {}

/// The transaction log and one slot per account, holding that account if it is known.
pub struct Registry {
    transactions: Vec<TransactionEvent>,
    accounts: Vec<Option<Account>>,
}

impl View for Registry {
    type V = RegistryView;

    closed spec fn view(&self) -> RegistryView {
        RegistryView {
            transactions: self.transactions@,
            accounts: Map::new(
                |n: TransactionAccountName| self.accounts@[n.spec_slot()] is Some,
                |n: TransactionAccountName| self.accounts@[n.spec_slot()]->0@,
            ),
        }
    }
}

impl Registry {
    /// Each slot holds the account of its name, with a history; every transaction's account
    /// is known.
    pub closed spec fn wf(&self) -> bool {
        &&& self.accounts@.len() == ACCOUNT_COUNT
        &&& forall|i: int|
            0 <= i < ACCOUNT_COUNT && #[trigger] self.accounts@[i] is Some ==> {
                &&& self.accounts@[i]->0.name.spec_slot() == i
                &&& self.accounts@[i]->0.wf()
            }
        &&& forall|i: int|
            0 <= i < self.transactions@.len() ==> self.accounts@[#[trigger] self.transactions@[
                i
            ].account.spec_slot()] is Some
    }

    /// In a well-formed registry every account has a history, and every transaction's account
    /// is known.
    pub proof fn lemma_view_wf(&self)
        requires
            self.wf(),
        ensures
            states_wf(self@.accounts),
            forall|i: int|
                0 <= i < self@.transactions.len() ==> self@.accounts.contains_key(
                    #[trigger] self@.transactions[i].account,
                ),
    {
        assert forall|n: TransactionAccountName| #[trigger] self@.accounts.contains_key(n) implies self@.accounts[n].history.len() > 0 by {
            assert(self.accounts@[n.spec_slot()] is Some);
        }
        assert forall|i: int| 0 <= i < self@.transactions.len() implies self@.accounts.contains_key(
            #[trigger] self@.transactions[i].account,
        ) by {
            assert(self.accounts@[self.transactions@[i].account.spec_slot()] is Some);
        }
    }

    fn empty_slots() -> (r: Vec<Option<Account>>)
        ensures
            r@.len() == ACCOUNT_COUNT,
            forall|i: int| 0 <= i < ACCOUNT_COUNT ==> r@[i] is None,
    {
        let mut r: Vec<Option<Account>> = Vec::new();
        let mut i: usize = 0;
        while i < ACCOUNT_COUNT
            invariant
                i <= ACCOUNT_COUNT,
                r@.len() == i,
                forall|j: int| 0 <= j < i ==> r@[j] is None,
            decreases ACCOUNT_COUNT - i,
        {
            r.push(None);
            i = i + 1;
        }
        r
    }

    /// A registry with no transactions, holding the seed accounts. Where two seeds share a
    /// name, the later one is kept.
    pub fn new(accounts: Option<Vec<Account>>) -> (r: Registry)
        requires
            accounts is Some ==> forall|i: int|
                0 <= i < accounts->0@.len() ==> (#[trigger] accounts->0@[i]).wf(),
        ensures
            r.wf(),
            r@.transactions == Seq::<TransactionEvent>::empty(),
            accounts is None ==> r@.accounts == Map::<TransactionAccountName, AccountState>::empty(),
            accounts is Some ==> r@.accounts == seed_accounts(accounts->0@),
    {
        let mut slots = Self::empty_slots();
        match accounts {
            None => {
                let r = Registry { transactions: Vec::new(), accounts: slots };
                proof {
                    assert(r@.accounts =~= Map::<TransactionAccountName, AccountState>::empty());
                }
                r
            },
            Some(list) => {
                let ghost all = list@;
                let mut reg = Registry { transactions: Vec::new(), accounts: slots };
                for account in it: list
                    invariant
                        it.seq() == all,
                        forall|i: int| 0 <= i < all.len() ==> (#[trigger] all[i]).wf(),
                        reg.wf(),
                        reg@.transactions == Seq::<TransactionEvent>::empty(),
                        reg@.accounts == seed_accounts(all.take(it.index() as int)),
                {
                    let ghost before = reg@;
                    let ghost k = it.index() as int;
                    let s = account.name.slot();
                    reg.accounts.set(s, Some(account));
                    proof {
                        assert(all.take(k + 1).drop_last() =~= all.take(k));
                        assert(reg@.accounts =~= before.accounts.insert(all[k].name, all[k]@));
                    }
                }
                proof {
                    assert(all.take(all.len() as int) =~= all);
                }
                reg
            },
        }
    }

    /// Records one transaction. An unknown account is created with the transaction's amount
    /// as its first value; a known one moves by the amount and records the new value.
    #[verifier::rlimit(30)]
    pub fn add_single(&mut self, transaction: TransactionEvent)
        requires
            old(self).wf(),
            transaction_fits(old(self)@, transaction),
        ensures
            final(self).wf(),
            final(self)@ == apply_transaction(old(self)@, transaction),
    {
        let ghost before = self@;
        let ghost slots = self.accounts@;
        let ghost t = transaction;
        proof {
            self.lemma_view_wf();
        }
        let s = transaction.account.slot();
        let slot = self.accounts.remove(s);
        let updated = match slot {
            None => Account::new(transaction.account, transaction.amount, transaction.date),
            Some(account) => {
                let mut account = account;
                let v = account.current_value + transaction.amount;
                account.set_value(v, transaction.date);
                account
            },
        };
        let ghost u = updated;
        proof {
            assert(u@ == after_movement(before.accounts, t.account, t.date, t.amount));
        }
        self.accounts.insert(s, Some(updated));
        proof {
            assert(self.accounts@ =~= slots.update(s as int, Some(u)));
        }
        self.transactions.push(transaction);
        proof {
            assert(self@.transactions =~= before.transactions.push(t));
            assert(self@.accounts =~= before.accounts.insert(
                t.account,
                after_movement(before.accounts, t.account, t.date, t.amount),
            ));
        }
    }

    /// Records a batch of transactions in date order; transactions of the same date keep
    /// their order in the batch.
    pub fn add_batch(&mut self, transactions: Vec<TransactionEvent>)
        requires
            old(self).wf(),
            all_fit(old(self)@, sorted_by_date(transactions@)),
        ensures
            final(self).wf(),
            final(self)@ == apply_all(old(self)@, sorted_by_date(transactions@)),
    {
        let ghost before = self@;
        let sorted = sort_by_date(transactions);
        let ghost all = sorted@;
        for t in it: sorted
            invariant
                it.seq() == all,
                self.wf(),
                all_fit(before, all),
                self@ == apply_all(before, all.take(it.index() as int)),
        {
            let ghost k = it.index() as int;
            proof {
                lemma_all_fit_step(before, all, k);
                assert(all.take(k + 1).drop_last() =~= all.take(k));
            }
            self.add_single(t);
        }
        proof {
            assert(all.take(all.len() as int) =~= all);
        }
    }

    /// Combines two registries: the logs are concatenated, left first, and the account maps
    /// are joined, merging the accounts that both hold.
    pub fn merge(self, other: Registry) -> (r: Registry)
        requires
            self.wf(),
            other.wf(),
        ensures
            r.wf(),
            r@.transactions == self@.transactions + other@.transactions,
            r@.accounts == merge_accounts(self@.accounts, other@.accounts),
    {
        let ghost a = self@;
        let ghost b = other@;
        let ghost la = self.accounts@;
        let ghost lb = other.accounts@;
        let ghost ta = self.transactions@;
        let ghost tb = other.transactions@;
        let mut left = self.accounts;
        let mut right = other.accounts;
        let mut slots: Vec<Option<Account>> = Vec::new();
        let mut k: usize = 0;
        while k < ACCOUNT_COUNT
            invariant
                k <= ACCOUNT_COUNT,
                la.len() == ACCOUNT_COUNT,
                lb.len() == ACCOUNT_COUNT,
                left@ == la.subrange(k as int, ACCOUNT_COUNT as int),
                right@ == lb.subrange(k as int, ACCOUNT_COUNT as int),
                slots@.len() == k,
                forall|i: int|
                    0 <= i < ACCOUNT_COUNT && #[trigger] la[i] is Some ==> {
                        &&& la[i]->0.name.spec_slot() == i
                        &&& la[i]->0.wf()
                    },
                forall|i: int|
                    0 <= i < ACCOUNT_COUNT && #[trigger] lb[i] is Some ==> {
                        &&& lb[i]->0.name.spec_slot() == i
                        &&& lb[i]->0.wf()
                    },
                forall|i: int|
                    0 <= i < k ==> {
                        &&& (#[trigger] slots@[i] is Some <==> (la[i] is Some || lb[i] is Some))
                        &&& slots@[i] is Some ==> slots@[i]->0.name.spec_slot() == i
                        &&& slots@[i] is Some ==> slots@[i]->0.wf()
                        &&& (la[i] is Some && lb[i] is Some) ==> slots@[i]->0@ == merged_state(
                            la[i]->0@,
                            lb[i]->0@,
                        )
                        &&& (la[i] is Some && lb[i] is None) ==> slots@[i]->0@ == la[i]->0@
                        &&& (la[i] is None && lb[i] is Some) ==> slots@[i]->0@ == lb[i]->0@
                    },
            decreases ACCOUNT_COUNT - k,
        {
            let x = left.remove(0);
            let y = right.remove(0);
            proof {
                assert(x == la[k as int]);
                assert(y == lb[k as int]);
            }
            let c = match x {
                None => y,
                Some(xa) => match y {
                    None => Some(xa),
                    Some(ya) => match xa.merge(ya) {
                        Ok(m) => Some(m),
                        Err(_) => {
                            proof {
                                assert(false);
                            }
                            None
                        },
                    },
                },
            };
            slots.push(c);
            proof {
                assert(left@ =~= la.subrange(k as int + 1, ACCOUNT_COUNT as int));
                assert(right@ =~= lb.subrange(k as int + 1, ACCOUNT_COUNT as int));
            }
            k = k + 1;
        }
        let mut transactions = self.transactions;
        let mut rest = other.transactions;
        transactions.append(&mut rest);
        let r = Registry { transactions, accounts: slots };
        proof {
            assert(r@.transactions =~= a.transactions + b.transactions);
            assert forall|i: int| 0 <= i < r.transactions@.len() implies r.accounts@[#[trigger] r.transactions@[i].account.spec_slot()] is Some by {
                if i < ta.len() {
                    assert(r.transactions@[i] == ta[i]);
                    let j = ta[i].account.spec_slot();
                    assert(la[j] is Some);
                    assert(slots@[j] is Some);
                } else {
                    assert(r.transactions@[i] == tb[i - ta.len()]);
                    let j = tb[i - ta.len()].account.spec_slot();
                    assert(lb[j] is Some);
                    assert(slots@[j] is Some);
                }
            }
            assert(r@.accounts =~= merge_accounts(a.accounts, b.accounts));
        }
        r
    }

    /// Recording `transaction` keeps the balance of its account within `i64`.
    pub fn can_add(&self, transaction: &TransactionEvent) -> (r: bool)
        requires
            self.wf(),
        ensures
            r == transaction_fits(self@, *transaction),
    {
        match &self.accounts[transaction.account.slot()] {
            None => true,
            Some(a) => a.current_value.checked_add(transaction.amount).is_some(),
        }
    }

    /// A registry seeded with `accounts`, then holding the batch recorded in date order; fails
    /// when a balance would leave the range of `i64` on the way.
    pub fn from_batch(accounts: Vec<Account>, transactions: Vec<TransactionEvent>) -> (r: Result<Registry, BalanceOverflow>)
        requires
            forall|i: int| 0 <= i < accounts@.len() ==> (#[trigger] accounts@[i]).wf(),
        ensures
            ({
                let seeded = RegistryView { transactions: Seq::empty(), accounts: seed_accounts(accounts@) };
                &&& r is Ok <==> all_fit(seeded, sorted_by_date(transactions@))
                &&& r is Ok ==> r->Ok_0.wf() && r->Ok_0@ == apply_all(seeded, sorted_by_date(transactions@))
            }),
    {
        let ghost seeds = accounts@;
        let mut reg = Registry::new(Some(accounts));
        let ghost before = reg@;
        proof {
            assert(before == RegistryView { transactions: Seq::empty(), accounts: seed_accounts(seeds) });
        }
        let ghost tv = transactions@;
        let sorted = sort_by_date(transactions);
        let ghost all = sorted@;
        proof {
            assert(all == sorted_by_date(tv));
            assert(all.take(0) =~= Seq::<TransactionEvent>::empty());
        }
        for t in it: sorted
            invariant
                it.seq() == all,
                all == sorted_by_date(tv),
                before == (RegistryView { transactions: Seq::empty(), accounts: seed_accounts(seeds) }),
                seeds == accounts@,
                tv == transactions@,
                reg.wf(),
                all_fit(before, all.take(it.index() as int)),
                reg@ == apply_all(before, all.take(it.index() as int)),
        {
            let ghost k = it.index() as int;
            proof {
                assert(all.take(k + 1).drop_last() =~= all.take(k));
            }
            if !reg.can_add(&t) {
                proof {
                    if all_fit(before, all) {
                        lemma_all_fit_prefix(before, all, k + 1);
                        assert(all.take(k + 1).last() == t);
                        assert(false);
                    }
                    assert(!all_fit(before, all));
                    assert(!all_fit(
                        RegistryView { transactions: Seq::empty(), accounts: seed_accounts(seeds) },
                        sorted_by_date(tv),
                    ));
                }
                return Err(BalanceOverflow {});
            }
            reg.add_single(t);
        }
        proof {
            assert(all.take(all.len() as int) =~= all);
            assert(all_fit(before, all));
            assert(all_fit(before, sorted_by_date(tv)));
            assert(all_fit(
                RegistryView { transactions: Seq::empty(), accounts: seed_accounts(seeds) },
                sorted_by_date(tv),
            ));
        }
        Ok(reg)
    }

    /// The transaction log, in the order of recording.
    pub fn transactions(&self) -> (r: &Vec<TransactionEvent>)
        ensures
            r@ == self@.transactions,
    {
        &self.transactions
    }

    /// The account of the given name, if it is known.
    pub fn account(&self, name: TransactionAccountName) -> (r: Option<&Account>)
        requires
            self.wf(),
        ensures
            r is Some <==> self@.accounts.contains_key(name),
            r is Some ==> r->0.name == name && r->0.wf() && r->0@ == self@.accounts[name],
    {
        let s = name.slot();
        match &self.accounts[s] {
            Some(a) => Some(a),
            None => None,
        }
    }

    /// The printable names of the known accounts, in declaration order.
    pub fn get_accounts(&self) -> (r: Vec<String>)
        requires
            self.wf(),
        ensures
            r@.len() == known_names(self@.accounts, ACCOUNT_COUNT as int).len(),
            forall|i: int|
                0 <= i < r@.len() ==> (#[trigger] r@[i])@ == known_names(
                    self@.accounts,
                    ACCOUNT_COUNT as int,
                )[i].spec_name(),
    {
        let mut r: Vec<String> = Vec::new();
        let mut k: usize = 0;
        while k < ACCOUNT_COUNT
            invariant
                self.wf(),
                k <= ACCOUNT_COUNT,
                r@.len() == known_names(self@.accounts, k as int).len(),
                forall|i: int|
                    0 <= i < r@.len() ==> (#[trigger] r@[i])@ == known_names(
                        self@.accounts,
                        k as int,
                    )[i].spec_name(),
            decreases ACCOUNT_COUNT - k,
        {
            let name = TransactionAccountName::from_slot(k);
            if self.accounts[k].is_some() {
                r.push(name.to_string());
            }
            k = k + 1;
        }
        r
    }

    /// The opening balance of one account, or 0 for an unknown account.
    fn initial_value_of(&self, name: TransactionAccountName) -> (r: i64)
        requires
            self.wf(),
        ensures
            r as int == initial_of(self@.accounts, name),
    {
        match &self.accounts[name.slot()] {
            Some(a) => a.get_initial_value(),
            None => 0,
        }
    }

    /// The sum of the opening balances of the named accounts (all known accounts when no list
    /// is given). A named account that is not known adds 0.
    pub fn get_initial_account_values(&self, accounts: Option<&Vec<TransactionAccountName>>) -> (r: i128)
        requires
            self.wf(),
        ensures
            accounts is None ==> r as int == initial_sum(self@.accounts, all_account_names()),
            accounts is Some ==> r as int == initial_sum(self@.accounts, accounts->0@),
    {
        let mut total: i128 = 0;
        match accounts {
            None => {
                let mut k: usize = 0;
                while k < ACCOUNT_COUNT
                    invariant
                        self.wf(),
                        k <= ACCOUNT_COUNT,
                        total as int == initial_sum(self@.accounts, all_account_names().take(k as int)),
                        -(k as int) * 0x8000_0000_0000_0000 <= total <= (k as int) * 0x8000_0000_0000_0000,
                    decreases ACCOUNT_COUNT - k,
                {
                    let name = TransactionAccountName::from_slot(k);
                    let v = self.initial_value_of(name);
                    proof {
                        assert(all_account_names().take(k as int + 1).drop_last() =~= all_account_names().take(k as int));
                    }
                    total = total + v as i128;
                    k = k + 1;
                }
                proof {
                    assert(all_account_names().take(ACCOUNT_COUNT as int) =~= all_account_names());
                }
            },
            Some(names) => {
                let mut k: usize = 0;
                while k < names.len()
                    invariant
                        self.wf(),
                        k <= names@.len(),
                        total as int == initial_sum(self@.accounts, names@.take(k as int)),
                        -(k as int) * 0x8000_0000_0000_0000 <= total <= (k as int) * 0x8000_0000_0000_0000,
                    decreases names@.len() - k,
                {
                    let v = self.initial_value_of(names[k]);
                    proof {
                        assert(names@.take(k as int + 1).drop_last() =~= names@.take(k as int));
                        assert(k as int + 1 <= 0xffff_ffff_ffff_ffff);
                        assert((k as int + 1) * 0x8000_0000_0000_0000 <= 0xffff_ffff_ffff_ffff * 0x8000_0000_0000_0000) by (nonlinear_arith)
                            requires k as int + 1 <= 0xffff_ffff_ffff_ffff;
                    }
                    total = total + v as i128;
                    k = k + 1;
                }
                proof {
                    assert(names@.take(names@.len() as int) =~= names@);
                }
            },
        }
        total
    }
}

} // verus!
