//! Names read from input, matched without regard to ASCII case.
use vstd::prelude::*;
use vstd::string::StrSliceExecFns;

use crate::model::registry::all_account_names;
use crate::model::transaction::{
    all_categories, TransactionAccountName, TransactionCategory, ACCOUNT_COUNT, CATEGORY_COUNT,
};

verus! {

/// The code of `c` with ASCII upper-case letters taken to lower case.
pub open spec fn folded(c: char) -> u32 {
    if 65 <= c as u32 && c as u32 <= 90 {
        (c as u32 + 32) as u32
    } else {
        c as u32
    }
}

/// `a` and `b` are equal up to ASCII case.
pub open spec fn same_ignoring_case(a: Seq<char>, b: Seq<char>) -> bool {
    a.len() == b.len() && forall|i: int| 0 <= i < a.len() ==> #[trigger] folded(a[i]) == folded(b[i])
}

fn fold_char(c: char) -> (r: u32)
    ensures
        r == folded(c),
{
    let x = c as u32;
    if 65 <= x && x <= 90 {
        x + 32
    } else {
        x
    }
}

/// Compares two strings up to ASCII case.
pub fn eq_ignore_ascii_case(a: &str, b: &str) -> (r: bool)
    ensures
        r == same_ignoring_case(a@, b@),
{
    let n = a.unicode_len();
    if n != b.unicode_len() {
        return false;
    }
    let mut i: usize = 0;
    while i < n
        invariant
            n == a@.len(),
            n == b@.len(),
            i <= n,
            forall|j: int| 0 <= j < i ==> #[trigger] folded(a@[j]) == folded(b@[j]),
        decreases n - i,
    {
        if fold_char(a.get_char(i)) != fold_char(b.get_char(i)) {
            return false;
        }
        i = i + 1;
    }
    true
}

/// The first category, from position `k` of the declaration order on, whose name is `s` up to
/// ASCII case.
pub open spec fn category_named_from(s: Seq<char>, k: int) -> Option<TransactionCategory>
    decreases CATEGORY_COUNT - k,
{
    if k < 0 || k >= CATEGORY_COUNT {
        None
    } else if same_ignoring_case(s, all_categories()[k].spec_name()) {
        Some(all_categories()[k])
    } else {
        category_named_from(s, k + 1)
    }
}

/// The category whose name is `s` up to ASCII case.
pub open spec fn category_named(s: Seq<char>) -> Option<TransactionCategory> {
    category_named_from(s, 0)
}

/// The first account, from position `k` of the declaration order on, whose name is `s` up to
/// ASCII case.
pub open spec fn account_named_from(s: Seq<char>, k: int) -> Option<TransactionAccountName>
    decreases ACCOUNT_COUNT - k,
{
    if k < 0 || k >= ACCOUNT_COUNT {
        None
    } else if same_ignoring_case(s, all_account_names()[k].spec_name()) {
        Some(all_account_names()[k])
    } else {
        account_named_from(s, k + 1)
    }
}

/// The account whose name is `s` up to ASCII case.
pub open spec fn account_named(s: Seq<char>) -> Option<TransactionAccountName> {
    account_named_from(s, 0)
}

impl TransactionCategory {
    /// The category whose printable name is `s`, ignoring ASCII case.
    pub fn parse(s: &str) -> (r: Option<TransactionCategory>)
        ensures
            r == category_named(s@),
    {
        let mut k: usize = 0;
        while k < CATEGORY_COUNT
            invariant
                k <= CATEGORY_COUNT,
                category_named(s@) == category_named_from(s@, k as int),
            decreases CATEGORY_COUNT - k,
        {
            let c = TransactionCategory::from_index(k);
            if eq_ignore_ascii_case(s, c.name()) {
                return Some(c);
            }
            k = k + 1;
        }
        None
    }
}

impl TransactionAccountName {
    /// The account whose printable name is `s`, ignoring ASCII case.
    pub fn parse(s: &str) -> (r: Option<TransactionAccountName>)
        ensures
            r == account_named(s@),
    {
        let mut k: usize = 0;
        while k < ACCOUNT_COUNT
            invariant
                k <= ACCOUNT_COUNT,
                account_named(s@) == account_named_from(s@, k as int),
            decreases ACCOUNT_COUNT - k,
        {
            let a = TransactionAccountName::from_slot(k);
            proof {
                lemma_account_slots(k as int);
            }
            if eq_ignore_ascii_case(s, a.name()) {
                return Some(a);
            }
            k = k + 1;
        }
        None
    }
}

proof fn lemma_account_slots(k: int)
    requires
        0 <= k < ACCOUNT_COUNT,
    ensures
        all_account_names()[k] == TransactionAccountName::spec_from_slot(k),
{
}

} // verus!
