//! The monthly-worksheet layout: one worksheet per month, named `YYYY-MM`. Its first row is a
//! header. The transaction table comes first, with the columns `Data`, `Saldo`, `Categoria`,
//! `Nota` and `Conto`. After an empty header cell, a second table gives each account's opening
//! balance, with the columns `Conti corrente` and `Saldo iniziale`.
use vstd::prelude::*;
use vstd::string::StrSliceExecFns;

use crate::model::account::Account;
use crate::compatibility::ExtractionError;
use crate::date::Date;
use crate::names::{account_named, category_named};
use crate::model::registry::{
    all_fit, apply_all, merge_accounts, seed_accounts, sorted_by_date, Registry, RegistryView,
};
use crate::model::transaction::{TransactionAccountName, TransactionCategory, TransactionEvent};

verus! {

/// One worksheet cell, as each reading of it comes out.
pub struct Cell {
    /// The cell rendered as text.
    pub text: String,
    /// The cell is empty.
    pub empty: bool,
    /// The cell's text, where the cell holds a string.
    pub string: Option<String>,
    /// The cell's value in cents, where the cell holds a decimal number.
    pub number: Option<i64>,
    /// The cell's value as a date, where it can be read as one.
    pub date: Option<Date>,
}

/// The position of the first empty cell of `h` at or after `i`, or the length of `h`.
pub open spec fn first_empty(h: Seq<Cell>, i: int) -> int
    decreases h.len() - i,
{
    if i < 0 || i >= h.len() {
        h.len() as int
    } else if h[i].empty {
        i
    } else {
        first_empty(h, i + 1)
    }
}

/// The last position in `lo..hi` of a non-empty cell of `h` whose text is `name`.
pub open spec fn last_named(h: Seq<Cell>, name: Seq<char>, lo: int, hi: int) -> Option<int>
    decreases hi - lo,
{
    if hi <= lo {
        None
    } else if !h[hi - 1].empty && h[hi - 1].text@ == name {
        Some(hi - 1)
    } else {
        last_named(h, name, lo, hi - 1)
    }
}

/// The column of `name` in the first table of the header `h`.
pub open spec fn main_column(h: Seq<Cell>, name: Seq<char>) -> Option<int> {
    last_named(h, name, 0, first_empty(h, 0))
}

/// The column of `name` in the second table of the header `h`.
pub open spec fn side_column(h: Seq<Cell>, name: Seq<char>) -> Option<int> {
    last_named(h, name, first_empty(h, 0) + 1, h.len() as int)
}

/// The cell of `row` in column `col`, if both exist.
pub open spec fn cell_at(row: Seq<Cell>, col: Option<int>) -> Option<Cell> {
    match col {
        Some(p) => if 0 <= p < row.len() { Some(row[p]) } else { None },
        None => None,
    }
}

/// What a row of the transaction table gives.
pub struct RowEvent {
    pub date: Date,
    pub amount: i64,
    pub category: TransactionCategory,
    pub description: Option<Seq<char>>,
    pub account: TransactionAccountName,
}

/// The transaction that `row` describes under the header `h`, or `None` where a column or a
/// cell is missing or holds the wrong kind of value.
pub open spec fn row_event(h: Seq<Cell>, row: Seq<Cell>) -> Option<RowEvent> {
    let d = cell_at(row, main_column(h, "Data"@));
    let a = cell_at(row, main_column(h, "Saldo"@));
    let c = cell_at(row, main_column(h, "Categoria"@));
    let n = cell_at(row, main_column(h, "Nota"@));
    let k = cell_at(row, main_column(h, "Conto"@));
    if d is Some && d->0.date is Some && a is Some && a->0.number is Some && c is Some
        && c->0.string is Some && category_named(c->0.string->0@) is Some && n is Some && k is Some
        && k->0.string is Some && account_named(k->0.string->0@) is Some {
        Some(
            RowEvent {
                date: d->0.date->0,
                amount: a->0.number->0,
                category: category_named(c->0.string->0@)->0,
                description: match n->0.string {
                    Some(s) => Some(s@),
                    None => None,
                },
                account: account_named(k->0.string->0@)->0,
            },
        )
    } else {
        None
    }
}

/// `t` is the transaction that `e` describes.
pub open spec fn event_matches(t: TransactionEvent, e: RowEvent) -> bool {
    &&& t.date == e.date
    &&& t.amount == e.amount
    &&& t.category == e.category
    &&& t.account == e.account
    &&& match t.description {
        Some(s) => e.description == Some(s@),
        None => e.description is None,
    }
}

/// Every data row of `rows` describes a transaction.
pub open spec fn rows_valid(rows: Seq<Vec<Cell>>) -> bool {
    forall|j: int| 1 <= j < rows.len() ==> row_event(rows[0]@, #[trigger] rows[j]@) is Some
}

/// `ts` holds, in order, the transactions that the data rows of `rows` describe.
pub open spec fn events_of_rows(rows: Seq<Vec<Cell>>, ts: Seq<TransactionEvent>) -> bool {
    &&& rows_valid(rows)
    &&& ts.len() == if rows.len() == 0 { 0 } else { rows.len() - 1 }
    &&& forall|i: int| 0 <= i < ts.len() ==> event_matches(#[trigger] ts[i], row_event(rows[0]@, rows[i + 1]@)->0)
}

/// The first day of the month that a worksheet named `YYYY-MM` covers.
pub open spec fn sheet_month(s: Seq<char>) -> Option<Date> {
    if s.len() == 7 && s[4] == '-' && is_digit(s[0]) && is_digit(s[1]) && is_digit(s[2]) && is_digit(s[3])
        && is_digit(s[5]) && is_digit(s[6]) {
        let year = digit(s[0]) * 1000 + digit(s[1]) * 100 + digit(s[2]) * 10 + digit(s[3]);
        let month = digit(s[5]) * 10 + digit(s[6]);
        if 1 <= month <= 12 {
            Some(Date { year: year as u16, month: month as u8, day: 1 })
        } else {
            None
        }
    } else {
        None
    }
}

pub open spec fn is_digit(c: char) -> bool {
    48 <= c as u32 <= 57
}

pub open spec fn digit(c: char) -> int {
    c as u32 - 48
}

/// The `(account, opening balance)` pairs of the second table from data row `j` on, up to the
/// first row with an empty account cell; `None` where a row lacks a column, a cell or a value.
pub open spec fn account_rows(h: Seq<Cell>, rows: Seq<Vec<Cell>>, j: int) -> Option<Seq<(TransactionAccountName, i64)>>
    decreases rows.len() - j,
{
    if j < 1 || j >= rows.len() {
        Some(Seq::empty())
    } else {
        let k = cell_at(rows[j]@, side_column(h, "Conti corrente"@));
        let v = cell_at(rows[j]@, side_column(h, "Saldo iniziale"@));
        if k is None {
            None
        } else if k->0.empty {
            Some(Seq::empty())
        } else if account_named(k->0.text@) is Some && v is Some && v->0.number is Some {
            match account_rows(h, rows, j + 1) {
                Some(rest) => Some(seq![(account_named(k->0.text@)->0, v->0.number->0)] + rest),
                None => None,
            }
        } else {
            None
        }
    }
}

/// `accs` holds, in order, the accounts that the second table of `rows` opens in the month of
/// the worksheet `sheet`.
pub open spec fn accounts_of_rows(sheet: Seq<char>, rows: Seq<Vec<Cell>>, accs: Seq<Account>) -> bool {
    &&& sheet_month(sheet) is Some
    &&& rows.len() > 0 ==> account_rows(rows[0]@, rows, 1) is Some
    &&& {
        let pairs = if rows.len() > 0 { account_rows(rows[0]@, rows, 1)->0 } else { Seq::empty() };
        &&& accs.len() == pairs.len()
        &&& forall|i: int|
            0 <= i < accs.len() ==> {
                &&& (#[trigger] accs[i]).name == pairs[i].0
                &&& accs[i].current_value == pairs[i].1
                &&& accs[i].history@ == seq![(sheet_month(sheet)->0, pairs[i].1)]
            }
    }
}

fn first_empty_cell(h: &Vec<Cell>) -> (r: usize)
    ensures
        r == first_empty(h@, 0),
        r <= h@.len(),
{
    let mut i: usize = 0;
    while i < h.len() && !h[i].empty
        invariant
            i <= h@.len(),
            first_empty(h@, 0) == first_empty(h@, i as int),
        decreases h@.len() - i,
    {
        i = i + 1;
    }
    i
}

pub open spec fn position(col: Option<usize>) -> Option<int> {
    match col {
        Some(p) => Some(p as int),
        None => None,
    }
}

fn column(h: &Vec<Cell>, name: &str, lo: usize, hi: usize) -> (r: Option<usize>)
    requires
        hi <= h@.len(),
    ensures
        position(r) == last_named(h@, name@, lo as int, hi as int),
{
    let target = name.to_owned();
    let mut k: usize = hi;
    while k > lo
        invariant
            k <= hi,
            hi <= h@.len(),
            target@ == name@,
            last_named(h@, name@, lo as int, hi as int) == last_named(h@, name@, lo as int, k as int),
        decreases k,
    {
        if !h[k - 1].empty && h[k - 1].text == target {
            return Some(k - 1);
        }
        k = k - 1;
    }
    None
}

fn cell<'a>(row: &'a Vec<Cell>, col: Option<usize>) -> (r: Option<&'a Cell>)
    ensures
        r is Some <==> cell_at(row@, position(col)) is Some,
        r is Some ==> *r->0 == cell_at(row@, position(col))->0,
{
    match col {
        Some(p) => if p < row.len() { Some(&row[p]) } else { None },
        None => None,
    }
}

/// Reads the transaction table: each row after the header gives one transaction. Fails when
/// a row lacks a column or a cell, or a value is not of the expected kind.
pub fn retrieve_transactions(rows: &Vec<Vec<Cell>>) -> (r: Result<Vec<TransactionEvent>, ExtractionError>)
    ensures
        r is Ok <==> rows_valid(rows@),
        r is Ok ==> events_of_rows(rows@, r->Ok_0@),
{
    let mut transactions: Vec<TransactionEvent> = Vec::new();
    if rows.len() == 0 {
        return Ok(transactions);
    }
    let header = &rows[0];
    let end = first_empty_cell(header);
    let data = column(header, "Data", 0, end);
    let saldo = column(header, "Saldo", 0, end);
    let categoria = column(header, "Categoria", 0, end);
    let nota = column(header, "Nota", 0, end);
    let conto = column(header, "Conto", 0, end);
    let ghost h = rows@[0]@;
    let mut j: usize = 1;
    while j < rows.len()
        invariant
            1 <= j <= rows@.len(),
            h == rows@[0]@,
            *header == rows@[0],
            end == first_empty(h, 0),
            position(data) == main_column(h, "Data"@),
            position(saldo) == main_column(h, "Saldo"@),
            position(categoria) == main_column(h, "Categoria"@),
            position(nota) == main_column(h, "Nota"@),
            position(conto) == main_column(h, "Conto"@),
            transactions@.len() == j - 1,
            forall|y: int| 1 <= y < j ==> row_event(h, #[trigger] rows@[y]@) is Some,
            forall|i: int| 0 <= i < transactions@.len() ==> event_matches(#[trigger] transactions@[i], row_event(h, rows@[i + 1]@)->0),
        decreases rows@.len() - j,
    {
        let row = &rows[j];
        let ghost e = row_event(h, row@);
        let date = match cell(row, data) {
            Some(c) => match c.date {
                Some(d) => d,
                None => return Err(ExtractionError {}),
            },
            None => return Err(ExtractionError {}),
        };
        let amount = match cell(row, saldo) {
            Some(c) => match c.number {
                Some(a) => a,
                None => return Err(ExtractionError {}),
            },
            None => return Err(ExtractionError {}),
        };
        let category = match cell(row, categoria) {
            Some(c) => match &c.string {
                Some(s) => match TransactionCategory::parse(s.as_str()) {
                    Some(x) => x,
                    None => return Err(ExtractionError {}),
                },
                None => return Err(ExtractionError {}),
            },
            None => return Err(ExtractionError {}),
        };
        let description = match cell(row, nota) {
            Some(c) => match &c.string {
                Some(s) => Some(s.clone()),
                None => None,
            },
            None => return Err(ExtractionError {}),
        };
        let account = match cell(row, conto) {
            Some(c) => match &c.string {
                Some(s) => match TransactionAccountName::parse(s.as_str()) {
                    Some(x) => x,
                    None => return Err(ExtractionError {}),
                },
                None => return Err(ExtractionError {}),
            },
            None => return Err(ExtractionError {}),
        };
        let t = TransactionEvent::new(date, amount, category, description, account);
        proof {
            assert(e is Some);
            assert(event_matches(t, e->0));
        }
        transactions.push(t);
        j = j + 1;
    }
    Ok(transactions)
}

/// Reads the first day of the month of a worksheet named `YYYY-MM`.
pub fn sheet_first_day(sheet: &str) -> (r: Option<Date>)
    ensures
        r == sheet_month(sheet@),
{
    if sheet.unicode_len() != 7 {
        return None;
    }
    let c0 = sheet.get_char(0);
    let c1 = sheet.get_char(1);
    let c2 = sheet.get_char(2);
    let c3 = sheet.get_char(3);
    let c4 = sheet.get_char(4);
    let c5 = sheet.get_char(5);
    let c6 = sheet.get_char(6);
    if c4 != '-' {
        return None;
    }
    let (d0, d1, d2, d3, d5, d6) = match (digit_value(c0), digit_value(c1), digit_value(c2), digit_value(c3), digit_value(c5), digit_value(c6)) {
        (Some(d0), Some(d1), Some(d2), Some(d3), Some(d5), Some(d6)) => (d0, d1, d2, d3, d5, d6),
        _ => return None,
    };
    let year = d0 * 1000 + d1 * 100 + d2 * 10 + d3;
    let month = d5 * 10 + d6;
    if 1 <= month && month <= 12 {
        Some(Date { year, month: month as u8, day: 1 })
    } else {
        None
    }
}

fn digit_value(c: char) -> (r: Option<u16>)
    ensures
        r is Some <==> is_digit(c),
        r is Some ==> r->0 as int == digit(c),
{
    let x = c as u32;
    if 48 <= x && x <= 57 {
        Some((x - 48) as u16)
    } else {
        None
    }
}

/// Reads the opening balances of the second table, each dated on the first day of the
/// worksheet's month. Reading stops at the first row whose account cell is empty.
pub fn retrieve_accounts(worksheet: &str, rows: &Vec<Vec<Cell>>) -> (r: Result<Vec<Account>, ExtractionError>)
    ensures
        r is Ok <==> (sheet_month(worksheet@) is Some && (rows@.len() > 0 ==> account_rows(rows@[0]@, rows@, 1) is Some)),
        r is Ok ==> accounts_of_rows(worksheet@, rows@, r->Ok_0@),
        r is Ok ==> forall|i: int| 0 <= i < r->Ok_0@.len() ==> (#[trigger] r->Ok_0@[i]).wf(),
{
    let date = match sheet_first_day(worksheet) {
        Some(d) => d,
        None => return Err(ExtractionError {}),
    };
    let mut accounts: Vec<Account> = Vec::new();
    if rows.len() == 0 {
        return Ok(accounts);
    }
    let header = &rows[0];
    let end = first_empty_cell(header);
    let lo = if end < header.len() { end + 1 } else { header.len() };
    let conti = column(header, "Conti corrente", lo, header.len());
    let saldo = column(header, "Saldo iniziale", lo, header.len());
    let ghost h = rows@[0]@;
    let ghost pairs: Seq<(TransactionAccountName, i64)> = Seq::empty();
    proof {
        if end >= header@.len() {
            assert(last_named(h, "Conti corrente"@, end + 1, h.len() as int) is None);
            assert(last_named(h, "Saldo iniziale"@, end + 1, h.len() as int) is None);
        }
    }
    let mut j: usize = 1;
    let mut stopped = false;
    while !stopped && j < rows.len()
        invariant
            1 <= j <= rows@.len(),
            stopped ==> account_rows(h, rows@, 1) == Some(pairs),
            h == rows@[0]@,
            sheet_month(worksheet@) == Some(date),
            position(conti) == side_column(h, "Conti corrente"@),
            position(saldo) == side_column(h, "Saldo iniziale"@),
            accounts@.len() == pairs.len(),
            forall|i: int|
                0 <= i < accounts@.len() ==> {
                    &&& (#[trigger] accounts@[i]).name == pairs[i].0
                    &&& accounts@[i].current_value == pairs[i].1
                    &&& accounts@[i].history@ == seq![(date, pairs[i].1)]
                    &&& accounts@[i].wf()
                },
            !stopped ==> account_rows(h, rows@, 1) == match account_rows(h, rows@, j as int) {
                Some(rest) => Some(pairs + rest),
                None => None,
            },
        decreases rows@.len() - j + if stopped { 0int } else { 1int },
    {
        let row = &rows[j];
        let ghost here = account_rows(h, rows@, j as int);
        proof {
            assert(row@ == rows@[j as int]@);
        }
        let name_cell = match cell(row, conti) {
            Some(c) => c,
            None => {
                proof {
                    assert(here is None);
                }
                return Err(ExtractionError {});
            },
        };
        if name_cell.empty {
            proof {
                assert(here == Some(Seq::<(TransactionAccountName, i64)>::empty()));
                assert(pairs + Seq::<(TransactionAccountName, i64)>::empty() =~= pairs);
            }
            stopped = true;
        } else {
        let name = match TransactionAccountName::parse(name_cell.text.as_str()) {
            Some(n) => n,
            None => {
                proof {
                    assert(here is None);
                }
                return Err(ExtractionError {});
            },
        };
        let value = match cell(row, saldo) {
            Some(c) => match c.number {
                Some(v) => v,
                None => {
                    proof {
                        assert(here is None);
                    }
                    return Err(ExtractionError {});
                },
            },
            None => {
                proof {
                    assert(here is None);
                }
                return Err(ExtractionError {});
            },
        };
        accounts.push(Account::new(name, value, date));
        proof {
            let rest = account_rows(h, rows@, j as int + 1);
            if rest is Some {
                assert(pairs.push((name, value)) + rest->0 =~= pairs + (seq![(name, value)] + rest->0));
            }
            pairs = pairs.push((name, value));
        }
        j = j + 1;
        }
    }
    proof {
        if !stopped {
            assert(pairs + Seq::<(TransactionAccountName, i64)>::empty() =~= pairs);
        }
        assert(account_rows(h, rows@, 1) == Some(pairs));
        assert(accounts_of_rows(worksheet@, rows@, accounts@));
    }
    Ok(accounts)
}

#[verifier::external_type_specification]
#[verifier::external_body]
pub struct ExRegex(regex::Regex);

#[verifier::external_type_specification]
#[verifier::external_body]
pub struct ExRegexError(regex::Error);

/// Whether the regular expression `pattern` matches somewhere in `name`.
pub uninterp spec fn pattern_matches(pattern: Seq<char>, name: Seq<char>) -> bool;

/// Relies on regex::Regex::new to compile `pattern`; nothing is promised of the result.
#[verifier::external_body]
fn compile_pattern(pattern: &str) -> (r: Result<regex::Regex, regex::Error>) {
    regex::Regex::new(pattern)
}

/// A regular expression that selects the worksheets to read, with its source text.
pub struct WorksheetTemplate {
    pattern: String,
    regex: regex::Regex,
}

impl WorksheetTemplate {
    /// The source text of the regular expression.
    pub closed spec fn pattern(&self) -> Seq<char> {
        self.pattern@
    }

    /// Compiles a template; fails where `pattern` is not a valid regular expression.
    pub fn new(pattern: &str) -> (r: Result<WorksheetTemplate, regex::Error>)
        ensures
            r is Ok ==> r->Ok_0.pattern() == pattern@,
    {
        match compile_pattern(pattern) {
            Ok(regex) => Ok(WorksheetTemplate { pattern: pattern.to_owned(), regex }),
            Err(e) => Err(e),
        }
    }

    /// Relies on regex::Regex::is_match: whether the template, compiled from its source text
    /// by `new` and never changed, matches somewhere in `name`.
    #[verifier::external_body]
    fn is_match(&self, name: &str) -> (r: bool)
        ensures
            r == pattern_matches(self.pattern(), name@),
    {
        self.regex.is_match(name)
    }
}

/// `a` comes strictly before `b` in lexicographic order of code points.
pub open spec fn name_before(a: Seq<char>, b: Seq<char>) -> bool
    decreases a.len(),
{
    if a.len() == 0 {
        b.len() > 0
    } else if b.len() == 0 {
        false
    } else if a[0] != b[0] {
        (a[0] as u32) < (b[0] as u32)
    } else {
        name_before(a.drop_first(), b.drop_first())
    }
}

/// `s` with `x` placed after every name that does not come after it.
pub open spec fn insert_name(s: Seq<Seq<char>>, x: Seq<char>) -> Seq<Seq<char>>
    decreases s.len(),
{
    if s.len() == 0 {
        seq![x]
    } else if !name_before(x, s.last()) {
        s.push(x)
    } else {
        insert_name(s.drop_last(), x).push(s.last())
    }
}

/// The names of `s` in lexicographic order.
pub open spec fn sorted_names(s: Seq<Seq<char>>) -> Seq<Seq<char>>
    decreases s.len(),
{
    if s.len() == 0 {
        s
    } else {
        insert_name(sorted_names(s.drop_last()), s.last())
    }
}

/// The text of each name.
pub open spec fn texts(names: Seq<String>) -> Seq<Seq<char>> {
    names.map_values(|n: String| n@)
}

fn before(a: &str, b: &str) -> (r: bool)
    ensures
        r == name_before(a@, b@),
{
    let na = a.unicode_len();
    let nb = b.unicode_len();
    let mut i: usize = 0;
    proof {
        assert(a@.subrange(0, na as int) =~= a@);
        assert(b@.subrange(0, nb as int) =~= b@);
    }
    while i < na && i < nb && a.get_char(i) == b.get_char(i)
        invariant
            na == a@.len(),
            nb == b@.len(),
            i <= na,
            i <= nb,
            name_before(a@, b@) == name_before(a@.subrange(i as int, na as int), b@.subrange(i as int, nb as int)),
        decreases na - i,
    {
        proof {
            let sa = a@.subrange(i as int, na as int);
            let sb = b@.subrange(i as int, nb as int);
            assert(sa.drop_first() =~= a@.subrange(i as int + 1, na as int));
            assert(sb.drop_first() =~= b@.subrange(i as int + 1, nb as int));
        }
        i = i + 1;
    }
    let ghost sa = a@.subrange(i as int, na as int);
    let ghost sb = b@.subrange(i as int, nb as int);
    if i == na {
        proof {
            assert(sa.len() == 0);
        }
        i < nb
    } else if i == nb {
        proof {
            assert(sb.len() == 0);
        }
        false
    } else {
        let x = a.get_char(i);
        let y = b.get_char(i);
        proof {
            assert(sa[0] == x);
            assert(sb[0] == y);
        }
        (x as u32) < (y as u32)
    }
}

proof fn lemma_insert_name_at(s: Seq<Seq<char>>, x: Seq<char>, p: int)
    requires
        0 <= p <= s.len(),
        p == 0 || !name_before(x, s[p - 1]),
        forall|j: int| p <= j < s.len() ==> name_before(x, #[trigger] s[j]),
    ensures
        insert_name(s, x) == s.insert(p, x),
    decreases s.len(),
{
    if s.len() == 0 {
        assert(s.insert(p, x) =~= seq![x]);
    } else if p == s.len() {
        assert(s.insert(p, x) =~= s.push(x));
    } else {
        assert(name_before(x, s.last()));
        lemma_insert_name_at(s.drop_last(), x, p);
        assert(s.drop_last().insert(p, x).push(s.last()) =~= s.insert(p, x));
    }
}

/// The worksheet names in lexicographic order; equal names keep their order.
pub fn sort_worksheets(names: Vec<String>) -> (r: Vec<String>)
    ensures
        texts(r@) == sorted_names(texts(names@)),
{
    let ghost all = names@;
    let mut out: Vec<String> = Vec::new();
    for name in it: names
        invariant
            it.seq() == all,
            texts(out@) == sorted_names(texts(all.take(it.index() as int))),
        decreases all.len() - it.index(),
    {
        let ghost k = it.index() as int;
        let ghost old_out = out@;
        let mut p: usize = out.len();
        while p > 0 && before(name.as_str(), out[p - 1].as_str())
            invariant
                p <= out@.len(),
                out@ == old_out,
                forall|j: int| p <= j < out@.len() ==> name_before(name@, #[trigger] texts(out@)[j]),
            decreases p,
        {
            p = p - 1;
        }
        proof {
            lemma_insert_name_at(texts(old_out), name@, p as int);
            assert(texts(all.take(k + 1)).drop_last() =~= texts(all.take(k)));
            assert(all.take(k + 1).drop_last() =~= all.take(k));
            assert(texts(all.take(k + 1)).last() == name@);
        }
        out.insert(p, name);
        proof {
            assert(texts(out@) =~= texts(old_out).insert(p as int, name@));
        }
    }
    proof {
        assert(all.take(all.len() as int) =~= all);
    }
    out
}

/// The names among `names` that `pattern` matches, in order.
pub open spec fn matching_names(names: Seq<Seq<char>>, pattern: Seq<char>) -> Seq<Seq<char>>
    decreases names.len(),
{
    if names.len() == 0 {
        Seq::empty()
    } else if pattern_matches(pattern, names.last()) {
        matching_names(names.drop_last(), pattern).push(names.last())
    } else {
        matching_names(names.drop_last(), pattern)
    }
}

/// The worksheets among `names` that the template selects, in order.
pub fn select_worksheets(names: &Vec<String>, template: &WorksheetTemplate) -> (r: Vec<String>)
    ensures
        texts(r@) == matching_names(texts(names@), template.pattern()),
{
    let ghost p = template.pattern();
    let mut r: Vec<String> = Vec::new();
    let mut i: usize = 0;
    while i < names.len()
        invariant
            i <= names@.len(),
            p == template.pattern(),
            texts(r@) == matching_names(texts(names@.take(i as int)), p),
        decreases names@.len() - i,
    {
        let ghost old_r = r@;
        proof {
            assert(texts(names@.take(i as int + 1)).drop_last() =~= texts(names@.take(i as int)));
            assert(texts(names@.take(i as int + 1)).last() == names@[i as int]@);
        }
        if template.is_match(names[i].as_str()) {
            let n = names[i].clone();
            r.push(n);
            proof {
                assert(texts(r@) =~= texts(old_r).push(names@[i as int]@));
            }
        }
        i = i + 1;
    }
    proof {
        assert(names@.take(names@.len() as int) =~= names@);
    }
    r
}

/// The worksheets to read: the names that the template selects, in lexicographic order.
pub fn worksheets_to_read(names: Vec<String>, template: &WorksheetTemplate) -> (r: Vec<String>)
    ensures
        texts(r@) == matching_names(sorted_names(texts(names@)), template.pattern()),
{
    let sorted = sort_worksheets(names);
    select_worksheets(&sorted, template)
}

/// The registry seeded with `accs`, before any transaction.
pub open spec fn seeded(accs: Seq<Account>) -> RegistryView {
    RegistryView { transactions: Seq::empty(), accounts: seed_accounts(accs) }
}

/// `ts` and `accs` are what the worksheet `sheet` with rows `rows` holds.
pub open spec fn sheet_holds(sheet: Seq<char>, rows: Seq<Vec<Cell>>, ts: Seq<TransactionEvent>, accs: Seq<Account>) -> bool {
    &&& events_of_rows(rows, ts)
    &&& accounts_of_rows(sheet, rows, accs)
    &&& forall|i: int| 0 <= i < accs.len() ==> (#[trigger] accs[i]).wf()
}

/// Builds the registry of one worksheet: its accounts with their opening balances, then its
/// transactions recorded in date order. Fails when the worksheet cannot be read, or when a
/// balance would leave the range of `i64`.
pub fn build_registry(worksheet: &str, rows: &Vec<Vec<Cell>>) -> (r: Result<Registry, ExtractionError>)
    ensures
        !rows_valid(rows@) ==> r is Err,
        sheet_month(worksheet@) is None ==> r is Err,
        rows@.len() > 0 && account_rows(rows@[0]@, rows@, 1) is None ==> r is Err,
        r is Ok ==> r->Ok_0.wf() && exists|ts: Seq<TransactionEvent>, accs: Seq<Account>|
            #[trigger] sheet_holds(worksheet@, rows@, ts, accs) && r->Ok_0@ == apply_all(
                seeded(accs),
                sorted_by_date(ts),
            ),
        r is Err && rows_valid(rows@) && sheet_month(worksheet@) is Some && (rows@.len() > 0
            ==> account_rows(rows@[0]@, rows@, 1) is Some) ==> exists|
            ts: Seq<TransactionEvent>,
            accs: Seq<Account>,
        | #[trigger] sheet_holds(worksheet@, rows@, ts, accs) && !all_fit(seeded(accs), sorted_by_date(ts)),
{
    let transactions = match retrieve_transactions(rows) {
        Ok(t) => t,
        Err(e) => return Err(e),
    };
    let accounts = match retrieve_accounts(worksheet, rows) {
        Ok(a) => a,
        Err(e) => return Err(e),
    };
    let ghost ts = transactions@;
    let ghost accs = accounts@;
    proof {
        assert(sheet_holds(worksheet@, rows@, ts, accs));
    }
    match Registry::from_batch(accounts, transactions) {
        Ok(reg) => Ok(reg),
        Err(_) => Err(ExtractionError {}),
    }
}

/// Two registries merged, as `Registry::merge` does.
pub open spec fn merge_views(a: RegistryView, b: RegistryView) -> RegistryView {
    RegistryView {
        transactions: a.transactions + b.transactions,
        accounts: merge_accounts(a.accounts, b.accounts),
    }
}

/// The registries of the worksheets that were read, merged from left to right.
pub open spec fn merged_sheets(parts: Seq<(String, Result<Registry, ExtractionError>)>) -> RegistryView
    decreases parts.len(),
{
    if parts.len() == 0 {
        RegistryView { transactions: Seq::empty(), accounts: Map::empty() }
    } else {
        let prev = merged_sheets(parts.drop_last());
        match parts.last().1 {
            Ok(r) => merge_views(prev, r@),
            Err(_) => prev,
        }
    }
}

/// The names of the worksheets that could not be read, in order.
pub open spec fn failed_sheets(parts: Seq<(String, Result<Registry, ExtractionError>)>) -> Seq<Seq<char>>
    decreases parts.len(),
{
    if parts.len() == 0 {
        Seq::empty()
    } else if parts.last().1 is Err {
        failed_sheets(parts.drop_last()).push(parts.last().0@)
    } else {
        failed_sheets(parts.drop_last())
    }
}

/// Folds the registries built from a workbook's worksheets into one, in the given order, and
/// lists the worksheets that could not be read.
pub fn merge_worksheets(parts: Vec<(String, Result<Registry, ExtractionError>)>) -> (r: (Registry, Vec<String>))
    requires
        forall|i: int| 0 <= i < parts@.len() && (#[trigger] parts@[i]).1 is Ok ==> parts@[i].1->Ok_0.wf(),
    ensures
        r.0.wf(),
        r.0@ == merged_sheets(parts@),
        r.1@.len() == failed_sheets(parts@).len(),
        forall|i: int| 0 <= i < r.1@.len() ==> (#[trigger] r.1@[i])@ == failed_sheets(parts@)[i],
{
    let ghost all = parts@;
    let mut result = Registry::new(None);
    let mut failed: Vec<String> = Vec::new();
    for part in it: parts
        invariant
            it.seq() == all,
            forall|i: int| 0 <= i < all.len() && (#[trigger] all[i]).1 is Ok ==> all[i].1->Ok_0.wf(),
            result.wf(),
            result@ == merged_sheets(all.take(it.index() as int)),
            failed@.len() == failed_sheets(all.take(it.index() as int)).len(),
            forall|i: int| 0 <= i < failed@.len() ==> (#[trigger] failed@[i])@ == failed_sheets(all.take(it.index() as int))[i],
    {
        let ghost k = it.index() as int;
        let ghost old_failed = failed@;
        proof {
            assert(all.take(k + 1).drop_last() =~= all.take(k));
            assert(all.take(k + 1).last() == part);
            assert(all[k] == part);
        }
        let (name, built) = part;
        match built {
            Ok(reg) => {
                result = result.merge(reg);
            },
            Err(_) => {
                failed.push(name);
                proof {
                    assert forall|i: int| 0 <= i < failed@.len() implies (#[trigger] failed@[i])@ == failed_sheets(all.take(k + 1))[i] by {
                        if i < old_failed.len() {
                            assert(failed@[i] == old_failed[i]);
                        }
                    }
                }
            },
        }
    }
    proof {
        assert(all.take(all.len() as int) =~= all);
    }
    (result, failed)
}

} // verus!
