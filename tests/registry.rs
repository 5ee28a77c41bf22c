use realearning::model::account::Account;
use realearning::date::Date;
use realearning::model::registry::Registry;
use realearning::model::transaction::{TransactionAccountName, TransactionCategory, TransactionEvent};

fn day(y: u16, m: u8, d: u8) -> Date {
    Date::new(y, m, d).unwrap()
}

fn event(date: Date, amount: i64, category: TransactionCategory, account: TransactionAccountName) -> TransactionEvent {
    TransactionEvent::new(date, amount, category, None, account)
}

fn balance(r: &Registry, name: TransactionAccountName) -> i64 {
    r.account(name).unwrap().current_value
}

#[test]
fn empty_registry() {
    let r = Registry::new(None);
    assert_eq!(r.get_accounts().len(), 0)
}

#[test]
fn create_transaction_event() {
    let transaction_event = TransactionEvent::new(
        Date::new(2023, 5, 9).unwrap(),
        3200,
        TransactionCategory::Affitto,
        None,
        TransactionAccountName::Ale,
    );
    let other_transaction = TransactionEvent {
        date: Date::new(2023, 5, 9).unwrap(),
        amount: 3200,
        category: TransactionCategory::Affitto,
        description: None,
        account: TransactionAccountName::Ale,
    };
    assert_eq!(transaction_event.date, other_transaction.date);
    assert_eq!(transaction_event.amount, other_transaction.amount);
    assert_eq!(
        transaction_event.category.to_string(),
        other_transaction.category.to_string()
    );
    assert_eq!(transaction_event.description, other_transaction.description);
    assert_eq!(
        transaction_event.account.to_string(),
        other_transaction.account.to_string()
    );
}

#[test]
fn seeded_account_moves_by_transaction() {
    let seed = Account::new(TransactionAccountName::Ale, 10000, day(2023, 1, 1));
    let mut r = Registry::new(Some(vec![seed]));
    r.add_single(event(day(2023, 1, 5), -2000, TransactionCategory::Spesa, TransactionAccountName::Ale));
    let a = r.account(TransactionAccountName::Ale).unwrap();
    assert_eq!(a.current_value, 8000);
    assert_eq!(a.get_initial_value(), 10000);
    assert_eq!(a.history, vec![(day(2023, 1, 1), 10000), (day(2023, 1, 5), 8000)]);
    assert_eq!(r.transactions().len(), 1);
}

#[test]
fn first_transaction_seeds_new_account() {
    let mut r = Registry::new(None);
    r.add_batch(vec![
        event(day(2023, 3, 1), 5000, TransactionCategory::Stipendio, TransactionAccountName::Giulia),
        event(day(2023, 3, 1), -3000, TransactionCategory::Spesa, TransactionAccountName::Giulia),
    ]);
    assert_eq!(r.get_accounts(), vec![String::from("Giulia")]);
    let g = r.account(TransactionAccountName::Giulia).unwrap();
    assert_eq!(g.current_value, 2000);
    assert_eq!(g.get_initial_value(), 5000);
    assert_eq!(g.history, vec![(day(2023, 3, 1), 5000), (day(2023, 3, 1), 2000)]);
}

#[test]
fn merge_takes_latest_value() {
    let r1 = Registry::new(Some(vec![Account::new(TransactionAccountName::Ale, 1000, day(2023, 1, 1))]));
    let r2 = Registry::new(Some(vec![Account::new(TransactionAccountName::Ale, 3000, day(2023, 2, 1))]));
    let m = r1.merge(r2);
    let a = m.account(TransactionAccountName::Ale).unwrap();
    assert_eq!(a.current_value, 3000);
    assert_eq!(a.history, vec![(day(2023, 1, 1), 1000), (day(2023, 2, 1), 3000)]);
}

#[test]
fn batch_order_does_not_matter() {
    let make = |order: &[usize]| {
        let all = [
            (day(2023, 1, 3), -500, TransactionAccountName::Ale),
            (day(2023, 1, 1), 10000, TransactionAccountName::Ale),
            (day(2023, 1, 2), 2500, TransactionAccountName::Contante),
            (day(2023, 1, 4), -700, TransactionAccountName::Contante),
        ];
        let batch = order
            .iter()
            .map(|&i| event(all[i].0, all[i].1, TransactionCategory::Varie, all[i].2))
            .collect();
        let mut r = Registry::new(None);
        r.add_batch(batch);
        r
    };
    let a = make(&[0, 1, 2, 3]);
    let b = make(&[3, 2, 1, 0]);
    let c = make(&[2, 0, 3, 1]);
    for r in [&b, &c] {
        assert_eq!(balance(r, TransactionAccountName::Ale), balance(&a, TransactionAccountName::Ale));
        assert_eq!(balance(r, TransactionAccountName::Contante), balance(&a, TransactionAccountName::Contante));
    }
    assert_eq!(balance(&a, TransactionAccountName::Ale), 9500);
    assert_eq!(balance(&a, TransactionAccountName::Contante), 1800);
    let dates: Vec<Date> = a.transactions().iter().map(|t| t.date).collect();
    assert_eq!(dates, vec![day(2023, 1, 1), day(2023, 1, 2), day(2023, 1, 3), day(2023, 1, 4)]);
}

#[test]
fn batch_keeps_order_of_equal_dates() {
    let mut r = Registry::new(None);
    r.add_batch(vec![
        event(day(2023, 2, 1), 100, TransactionCategory::Varie, TransactionAccountName::Ale),
        event(day(2023, 1, 1), 200, TransactionCategory::Varie, TransactionAccountName::Ale),
        event(day(2023, 2, 1), 300, TransactionCategory::Varie, TransactionAccountName::Ale),
    ]);
    let amounts: Vec<i64> = r.transactions().iter().map(|t| t.amount).collect();
    assert_eq!(amounts, vec![200, 100, 300]);
    assert_eq!(balance(&r, TransactionAccountName::Ale), 600);
}

fn registry_with(entries: &[(Date, i64, TransactionAccountName)]) -> Registry {
    let mut r = Registry::new(None);
    for &(d, a, n) in entries {
        r.add_single(event(d, a, TransactionCategory::Varie, n));
    }
    r
}

#[test]
fn merge_is_commutative_on_balances() {
    let a = || registry_with(&[(day(2023, 1, 1), 100, TransactionAccountName::Ale), (day(2023, 1, 9), 50, TransactionAccountName::Giulia)]);
    let b = || registry_with(&[(day(2023, 1, 5), 700, TransactionAccountName::Ale), (day(2023, 1, 2), 10, TransactionAccountName::Contante)]);
    let ab = a().merge(b());
    let ba = b().merge(a());
    for n in [TransactionAccountName::Ale, TransactionAccountName::Giulia, TransactionAccountName::Contante] {
        assert_eq!(balance(&ab, n), balance(&ba, n));
    }
    assert_eq!(balance(&ab, TransactionAccountName::Ale), 700);
    assert_eq!(ab.get_accounts(), vec![String::from("Ale"), String::from("Contante"), String::from("Giulia")]);
}

#[test]
fn merge_is_associative() {
    let a = || registry_with(&[(day(2023, 1, 1), 100, TransactionAccountName::Ale)]);
    let b = || registry_with(&[(day(2023, 1, 3), 300, TransactionAccountName::Ale), (day(2023, 1, 3), 5, TransactionAccountName::CartaAle)]);
    let c = || registry_with(&[(day(2023, 1, 2), 200, TransactionAccountName::Ale), (day(2023, 1, 4), 9, TransactionAccountName::CartaAle)]);
    let left = a().merge(b()).merge(c());
    let right = a().merge(b().merge(c()));
    for n in [TransactionAccountName::Ale, TransactionAccountName::CartaAle] {
        assert_eq!(balance(&left, n), balance(&right, n));
        assert_eq!(left.account(n).unwrap().history, right.account(n).unwrap().history);
    }
    assert_eq!(balance(&left, TransactionAccountName::Ale), 300);
    assert_eq!(balance(&left, TransactionAccountName::CartaAle), 9);
    assert_eq!(left.transactions().len(), 5);
}

#[test]
fn initial_value_is_earliest_dated() {
    let mut a = Account::new(TransactionAccountName::Contante, 500, day(2023, 6, 1));
    a.set_value(900, day(2023, 1, 1));
    a.set_value(100, day(2023, 9, 1));
    a.set_value(700, day(2023, 1, 1));
    assert_eq!(a.current_value, 700);
    assert_eq!(a.get_initial_value(), 900);
}

#[test]
fn account_merge_rejects_other_name() {
    let a = Account::new(TransactionAccountName::Ale, 1, day(2023, 1, 1));
    let b = Account::new(TransactionAccountName::Giulia, 2, day(2023, 1, 2));
    let e = a.merge(b).err().unwrap();
    assert_eq!(e.left, TransactionAccountName::Ale);
    assert_eq!(e.right, TransactionAccountName::Giulia);
}

#[test]
fn account_merge_uses_latest_entry() {
    let mut a = Account::new(TransactionAccountName::Ale, 1, day(2023, 1, 1));
    a.set_value(4, day(2023, 3, 1));
    let mut b = Account::new(TransactionAccountName::Ale, 2, day(2023, 2, 1));
    b.set_value(3, day(2023, 3, 1));
    let m = a.merge(b).ok().unwrap();
    assert_eq!(m.current_value, 3);
    assert_eq!(m.history.len(), 4);
}

#[test]
fn initial_values_of_named_accounts() {
    let r = Registry::new(Some(vec![
        Account::new(TransactionAccountName::Ale, 1000, day(2023, 1, 1)),
        Account::new(TransactionAccountName::Giulia, 250, day(2023, 1, 1)),
        Account::new(TransactionAccountName::Ale, 4000, day(2023, 1, 1)),
    ]));
    assert_eq!(r.get_initial_account_values(None), 4250);
    let names = vec![TransactionAccountName::Giulia, TransactionAccountName::Contante];
    assert_eq!(r.get_initial_account_values(Some(&names)), 250);
}

#[test]
fn dates_are_checked() {
    assert!(Date::new(2023, 2, 29).is_none());
    assert!(Date::new(2024, 2, 29).is_some());
    assert!(Date::new(2023, 13, 1).is_none());
    assert!(Date::new(2023, 4, 31).is_none());
    assert_eq!(day(2023, 4, 17).month_start(), day(2023, 4, 1));
}

#[test]
fn names_print() {
    assert_eq!(TransactionAccountName::BuonoPasto.to_string(), "buono pasto");
    assert_eq!(TransactionCategory::Sanita.to_string(), "sanità");
}

#[test]
fn merge_with_equal_latest_dates_keeps_right_record() {
    let a = || Registry::new(Some(vec![Account::new(TransactionAccountName::Ale, 1000, day(2023, 1, 1))]));
    let b = || Registry::new(Some(vec![Account::new(TransactionAccountName::Ale, 3000, day(2023, 1, 1))]));
    assert_eq!(balance(&a().merge(b()), TransactionAccountName::Ale), 3000);
    assert_eq!(balance(&b().merge(a()), TransactionAccountName::Ale), 1000);
}

#[test]
fn accounts_are_equal_by_name() {
    let a = Account::new(TransactionAccountName::Ale, 1, day(2023, 1, 1));
    let b = Account::new(TransactionAccountName::Ale, 900, day(2024, 6, 1));
    let c = Account::new(TransactionAccountName::Giulia, 1, day(2023, 1, 1));
    assert!(a == b);
    assert!(a != c);
}
