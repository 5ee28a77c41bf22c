use realearning::compatibility::registro_ale::{
    build_registry, merge_worksheets, retrieve_accounts, retrieve_transactions, sheet_first_day, worksheets_to_read, Cell,
    WorksheetTemplate,
};
use realearning::compatibility::{CompatibilityEnum, ExtractionError};
use realearning::date::Date;
use realearning::model::transaction::{TransactionAccountName, TransactionCategory};

fn empty() -> Cell {
    Cell { text: String::new(), empty: true, string: None, number: None, date: None }
}

fn text(s: &str) -> Cell {
    Cell { text: s.to_string(), empty: false, string: Some(s.to_string()), number: None, date: None }
}

fn number(cents: i64) -> Cell {
    Cell { text: format!("{}", cents), empty: false, string: None, number: Some(cents), date: None }
}

fn date(y: u16, m: u8, d: u8) -> Cell {
    let day = Date::new(y, m, d).unwrap();
    Cell { text: format!("{}-{}-{}", y, m, d), empty: false, string: None, number: None, date: Some(day) }
}

fn header() -> Vec<Cell> {
    vec![
        text("Data"),
        text("Saldo"),
        text("Categoria"),
        text("Nota"),
        text("Conto"),
        empty(),
        text("Conti corrente"),
        text("Saldo iniziale"),
    ]
}

fn sheet() -> Vec<Vec<Cell>> {
    vec![
        header(),
        vec![date(2023, 3, 9), number(-1250), text("SPESA"), text("mercato"), text("carta ale"), empty(), text("ale"), number(100000)],
        vec![date(2023, 3, 2), number(200000), text("stipendio"), empty(), text("Ale"), empty(), text("Giulia"), number(5000)],
        vec![date(2023, 3, 4), number(-800), text("Treno"), empty(), text("giulia"), empty(), empty(), empty()],
        vec![date(2023, 3, 5), number(-300), text("pasto"), empty(), text("Contante"), empty(), text("Contante"), number(7)],
    ]
}

#[test]
fn reads_transaction_table() {
    let ts = retrieve_transactions(&sheet()).ok().unwrap();
    assert_eq!(ts.len(), 4);
    assert_eq!(ts[0].date, Date::new(2023, 3, 9).unwrap());
    assert_eq!(ts[0].amount, -1250);
    assert_eq!(ts[0].category, TransactionCategory::Spesa);
    assert_eq!(ts[0].description, Some(String::from("mercato")));
    assert_eq!(ts[0].account, TransactionAccountName::CartaAle);
    assert_eq!(ts[1].description, None);
    assert_eq!(ts[2].account, TransactionAccountName::Giulia);
}

#[test]
fn rejects_unknown_category() {
    let mut rows = sheet();
    rows[2][2] = text("cinema");
    assert_eq!(retrieve_transactions(&rows).err(), Some(ExtractionError {}));
}

#[test]
fn rejects_missing_column() {
    let mut rows = sheet();
    rows[0][1] = text("Importo");
    assert!(retrieve_transactions(&rows).is_err());
    assert_eq!(retrieve_transactions(&vec![rows[0].clone_row()]).ok().unwrap().len(), 0);
}

trait CloneRow {
    fn clone_row(&self) -> Vec<Cell>;
}

impl CloneRow for Vec<Cell> {
    fn clone_row(&self) -> Vec<Cell> {
        self.iter()
            .map(|c| Cell { text: c.text.clone(), empty: c.empty, string: c.string.clone(), number: c.number, date: c.date })
            .collect()
    }
}

#[test]
fn reads_opening_balances_until_empty_row() {
    let accounts = retrieve_accounts("2023-03", &sheet()).ok().unwrap();
    assert_eq!(accounts.len(), 2);
    assert_eq!(accounts[0].name, TransactionAccountName::Ale);
    assert_eq!(accounts[0].current_value, 100000);
    assert_eq!(accounts[0].history, vec![(Date::new(2023, 3, 1).unwrap(), 100000)]);
    assert_eq!(accounts[1].name, TransactionAccountName::Giulia);
}

#[test]
fn worksheet_names_give_months() {
    assert_eq!(sheet_first_day("2023-03"), Date::new(2023, 3, 1));
    assert_eq!(sheet_first_day("2023-13"), None);
    assert_eq!(sheet_first_day("2023/03"), None);
    assert_eq!(sheet_first_day("Riepilogo"), None);
    assert!(retrieve_accounts("Riepilogo", &sheet()).is_err());
}

#[test]
fn builds_and_merges_worksheets() {
    let march = build_registry("2023-03", &sheet());
    let broken = build_registry("2023-04", &vec![header(), vec![date(2023, 4, 1), text("x"), text("Spesa"), empty(), text("Ale")]]);
    assert!(broken.is_err());
    let (registry, failed) = merge_worksheets(vec![(String::from("2023-03"), march), (String::from("2023-04"), broken)]);
    assert_eq!(failed, vec![String::from("2023-04")]);
    assert_eq!(registry.account(TransactionAccountName::Ale).unwrap().current_value, 300000);
    assert_eq!(registry.account(TransactionAccountName::Giulia).unwrap().current_value, 4200);
    assert_eq!(registry.account(TransactionAccountName::CartaAle).unwrap().current_value, -1250);
    assert_eq!(registry.account(TransactionAccountName::Contante).unwrap().current_value, -300);
    let dates: Vec<Date> = registry.transactions().iter().map(|t| t.date).collect();
    assert_eq!(dates[0], Date::new(2023, 3, 2).unwrap());
}

#[test]
fn layouts_parse_ignoring_case() {
    assert_eq!(CompatibilityEnum::parse("ale"), Some(CompatibilityEnum::Ale));
    assert_eq!(CompatibilityEnum::parse("BASE"), Some(CompatibilityEnum::Base));
    assert_eq!(CompatibilityEnum::parse("other"), None);
    assert_eq!(TransactionCategory::parse("Carta Di Credito"), Some(TransactionCategory::CartaDiCredito));
    assert_eq!(TransactionCategory::parse("CartaDiCredito"), None);
    assert_eq!(TransactionAccountName::parse("BUONO PASTO"), Some(TransactionAccountName::BuonoPasto));
}

#[test]
fn selects_month_worksheets_in_order() {
    let template = WorksheetTemplate::new(r"^\d{4}-\d{2}$").ok().unwrap();
    let names = vec![
        String::from("Riepilogo"),
        String::from("2023-02"),
        String::from("2022-12"),
        String::from("2023-1"),
        String::from("2023-01"),
    ];
    assert_eq!(
        worksheets_to_read(names, &template),
        vec![String::from("2022-12"), String::from("2023-01"), String::from("2023-02")]
    );
    assert!(WorksheetTemplate::new("(").is_err());
}
