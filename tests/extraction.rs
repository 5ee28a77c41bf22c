use realearning::model::account::Account;
use realearning::date::Date;
use realearning::plots::extraction::{extract_categories_split, extract_daily_transactions, Share};
use realearning::plots::monthly::monthy_extraction;
use realearning::model::registry::Registry;
use realearning::model::transaction::{TransactionAccountName, TransactionCategory, TransactionEvent};

fn day(y: u16, m: u8, d: u8) -> Date {
    Date::new(y, m, d).unwrap()
}

fn sample() -> Registry {
    let mut r = Registry::new(Some(vec![
        Account::new(TransactionAccountName::Ale, 100000, day(2023, 1, 1)),
        Account::new(TransactionAccountName::Giulia, 50000, day(2023, 1, 1)),
    ]));
    let ts = vec![
        (day(2023, 1, 5), 200000, TransactionCategory::Stipendio, TransactionAccountName::Ale),
        (day(2023, 1, 5), -30000, TransactionCategory::Spesa, TransactionAccountName::Ale),
        (day(2023, 1, 7), -80000, TransactionCategory::Affitto, TransactionAccountName::Giulia),
        (day(2023, 1, 20), -10000, TransactionCategory::Spesa, TransactionAccountName::Contante),
        (day(2023, 2, 3), -5000, TransactionCategory::Treno, TransactionAccountName::Ale),
        (day(2023, 2, 3), 1000, TransactionCategory::Regalo, TransactionAccountName::Giulia),
        (day(2023, 2, 10), -15000, TransactionCategory::Spesa, TransactionAccountName::Giulia),
        (day(2023, 2, 11), 0, TransactionCategory::Varie, TransactionAccountName::Ale),
    ];
    r.add_batch(ts.into_iter().map(|(d, a, c, n)| TransactionEvent::new(d, a, c, None, n)).collect());
    r
}

#[test]
fn daily_series_sums_per_day() {
    let r = sample();
    let d = extract_daily_transactions(&r, None, None, false).ok().unwrap();
    assert_eq!(d.days, vec![day(2023, 1, 5), day(2023, 1, 7), day(2023, 1, 20), day(2023, 2, 3), day(2023, 2, 10), day(2023, 2, 11)]);
    assert_eq!(d.amounts, vec![170000, -80000, -10000, -4000, -15000, 0]);
    assert_eq!(d.cumsum_amounts, vec![170000, 90000, 80000, 76000, 61000, 61000]);
    assert_eq!(d.days_idx, vec![0, 1, 2, 3, 4, 5]);
    assert_eq!(d.days_idx_range, (0, 5));
    assert_eq!(d.amounts_range, (-80000, 170000));
    assert_eq!(d.cumsum_amounts_range, (61000, 170000));
}

#[test]
fn daily_series_starts_from_opening_balance() {
    let r = sample();
    let names = vec![TransactionAccountName::Ale, TransactionAccountName::Giulia];
    let d = extract_daily_transactions(&r, Some(&names), None, true).ok().unwrap();
    assert_eq!(d.amounts, vec![170000, -80000, -4000, -15000, 0]);
    let offset = 150000;
    let mut running = offset;
    for (i, a) in d.amounts.iter().enumerate() {
        running += a;
        assert_eq!(d.cumsum_amounts[i], running);
    }
    assert_eq!(d.cumsum_amounts[0], 320000);
}

#[test]
fn daily_series_respects_date_range() {
    let r = sample();
    let d = extract_daily_transactions(&r, None, Some((day(2023, 1, 7), day(2023, 2, 3))), false).ok().unwrap();
    assert_eq!(d.days, vec![day(2023, 1, 7), day(2023, 1, 20), day(2023, 2, 3)]);
    assert_eq!(d.cumsum_amounts, vec![-80000, -90000, -94000]);
}

#[test]
fn daily_series_of_nothing_fails() {
    let r = sample();
    assert!(extract_daily_transactions(&r, None, Some((day(2024, 1, 1), day(2024, 12, 31))), true).is_err());
    let empty = Registry::new(None);
    assert!(extract_daily_transactions(&empty, None, None, false).is_err());
}

#[test]
fn category_split_orders_by_amount() {
    let r = sample();
    let s = extract_categories_split(&r, None, None, None);
    assert_eq!(s.income_categories, vec![TransactionCategory::Regalo, TransactionCategory::Stipendio]);
    assert_eq!(s.income_amounts, vec![1000, 200000]);
    assert_eq!(s.expense_categories, vec![TransactionCategory::Affitto, TransactionCategory::Spesa, TransactionCategory::Treno]);
    assert_eq!(s.expense_amounts, vec![-80000, -55000, -5000]);
    assert_eq!(s.expense_percentages[0], Share { part: -80000, whole: -140000 });
}

#[test]
fn category_percentages_close_to_hundred() {
    let r = sample();
    let s = extract_categories_split(&r, None, None, None);
    for shares in [&s.income_percentages, &s.expense_percentages] {
        let sum: f64 = shares.iter().map(|p| 100.0 * p.part as f64 / p.whole as f64).sum();
        assert!((sum - 100.0).abs() < 1e-6);
    }
}

#[test]
fn category_split_truncates_after_sorting() {
    let r = sample();
    let s = extract_categories_split(&r, None, None, Some(1));
    assert_eq!(s.income_categories, vec![TransactionCategory::Regalo]);
    assert_eq!(s.expense_categories, vec![TransactionCategory::Affitto]);
    assert_eq!(s.expense_percentages, vec![Share { part: -80000, whole: -140000 }]);
}

#[test]
fn monthly_breakdown() {
    let r = sample();
    let m = monthy_extraction(&r, None, None, None).ok().unwrap();
    assert_eq!(m.months, vec![day(2023, 1, 1), day(2023, 2, 1)]);
    assert_eq!(m.net_income, vec![80000, -19000]);
    assert_eq!(m.months_idx, vec![0, 1]);
    assert_eq!(m.net_income_range, (-19000, 80000));
    assert_eq!(m.categories, vec![TransactionCategory::Affitto, TransactionCategory::Spesa, TransactionCategory::Treno]);
    assert_eq!(m.categories_amounts, vec![vec![-80000], vec![-40000, -15000], vec![-5000]]);
    assert_eq!(m.categories_months_idx, vec![vec![0], vec![0, 1], vec![1]]);
    assert_eq!(m.categories_amounts_range, (-80000, -5000));
    assert_eq!(m.categories_months_idx_range, (0, 1));
    assert_eq!(m.categories_amounts_perc_months, m.months);
    assert_eq!(m.categories_amounts_perc_names[0], vec![TransactionCategory::Affitto, TransactionCategory::Spesa]);
    assert_eq!(m.categories_amounts_perc_value[1], vec![-15000, -5000]);
    assert_eq!(m.categories_amounts_perc[1][0], Share { part: -15000, whole: -20000 });
}

#[test]
fn monthly_breakdown_truncates_each_month() {
    let r = sample();
    let m = monthy_extraction(&r, None, None, Some(1)).ok().unwrap();
    assert_eq!(m.categories_amounts_perc_names, vec![vec![TransactionCategory::Affitto], vec![TransactionCategory::Spesa]]);
}

#[test]
fn monthly_breakdown_needs_an_expense() {
    let mut r = Registry::new(None);
    r.add_single(TransactionEvent::new(day(2023, 5, 2), 100, TransactionCategory::Regalo, None, TransactionAccountName::Ale));
    assert!(monthy_extraction(&r, None, None, None).is_err());
    assert!(monthy_extraction(&Registry::new(None), None, None, None).is_err());
}
