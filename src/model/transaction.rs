//! Transactions: one signed monetary movement each.
use vstd::prelude::*;

use crate::date::Date;

verus! {

/// The accounts that a transaction can move money on.
#[derive(Clone, Copy, Debug, PartialEq, Eq, Structural)]
pub enum TransactionAccountName {
    Ale,
    BuonoPasto,
    CartaAle,
    CartaGiulia,
    Contante,
    Giulia,
}

/// How many accounts there are.
pub const ACCOUNT_COUNT: usize = 6;

impl TransactionAccountName {
    /// The position of the account in the declaration order.
    pub open spec fn spec_slot(self) -> int {
        match self {
            TransactionAccountName::Ale => 0,
            TransactionAccountName::BuonoPasto => 1,
            TransactionAccountName::CartaAle => 2,
            TransactionAccountName::CartaGiulia => 3,
            TransactionAccountName::Contante => 4,
            TransactionAccountName::Giulia => 5,
        }
    }

    pub open spec fn spec_from_slot(i: int) -> TransactionAccountName {
        if i == 0 {
            TransactionAccountName::Ale
        } else if i == 1 {
            TransactionAccountName::BuonoPasto
        } else if i == 2 {
            TransactionAccountName::CartaAle
        } else if i == 3 {
            TransactionAccountName::CartaGiulia
        } else if i == 4 {
            TransactionAccountName::Contante
        } else {
            TransactionAccountName::Giulia
        }
    }

    pub fn slot(&self) -> (r: usize)
        ensures
            r as int == self.spec_slot(),
            r < ACCOUNT_COUNT,
            Self::spec_from_slot(r as int) == *self,
    {
        match self {
            TransactionAccountName::Ale => 0,
            TransactionAccountName::BuonoPasto => 1,
            TransactionAccountName::CartaAle => 2,
            TransactionAccountName::CartaGiulia => 3,
            TransactionAccountName::Contante => 4,
            TransactionAccountName::Giulia => 5,
        }
    }

    pub fn from_slot(i: usize) -> (r: TransactionAccountName)
        requires
            i < ACCOUNT_COUNT,
        ensures
            r == Self::spec_from_slot(i as int),
            r.spec_slot() == i as int,
    {
        if i == 0 {
            TransactionAccountName::Ale
        } else if i == 1 {
            TransactionAccountName::BuonoPasto
        } else if i == 2 {
            TransactionAccountName::CartaAle
        } else if i == 3 {
            TransactionAccountName::CartaGiulia
        } else if i == 4 {
            TransactionAccountName::Contante
        } else {
            TransactionAccountName::Giulia
        }
    }

    /// The printable name of the account.
    pub open spec fn spec_name(self) -> Seq<char> {
        match self {
            TransactionAccountName::Ale => "Ale"@,
            TransactionAccountName::BuonoPasto => "buono pasto"@,
            TransactionAccountName::CartaAle => "carta ale"@,
            TransactionAccountName::CartaGiulia => "carta giulia"@,
            TransactionAccountName::Contante => "Contante"@,
            TransactionAccountName::Giulia => "Giulia"@,
        }
    }

    /// The printable name of the account.
    pub fn name(&self) -> (r: &'static str)
        ensures
            r@ == self.spec_name(),
    {
        match self {
            TransactionAccountName::Ale => "Ale",
            TransactionAccountName::BuonoPasto => "buono pasto",
            TransactionAccountName::CartaAle => "carta ale",
            TransactionAccountName::CartaGiulia => "carta giulia",
            TransactionAccountName::Contante => "Contante",
            TransactionAccountName::Giulia => "Giulia",
        }
    }

    /// The printable name of the account, owned.
    pub fn to_string(&self) -> (r: String)
        ensures
            r@ == self.spec_name(),
    {
        self.name().to_owned()
    }
}

/// The categories that a transaction can belong to.
#[derive(Clone, Copy, Debug, PartialEq, Eq, Structural)]
pub enum TransactionCategory {
    Affitto,
    Auto,
    Banca,
    Bolletta,
    CartaDiCredito,
    Pasto,
    PranzoLavoro,
    RataAuto,
    Regalo,
    RitiroBancomat,
    Sanita,
    Scarpe,
    Spesa,
    Stipendio,
    Telefono,
    Treno,
    Uscite,
    Varie,
    Vestiti,
    Vista,
    Vacanza,
}

impl TransactionCategory {
    /// The printable name of the category.
    pub open spec fn spec_name(self) -> Seq<char> {
        match self {
            TransactionCategory::Affitto => "Affitto"@,
            TransactionCategory::Auto => "Auto"@,
            TransactionCategory::Banca => "Banca"@,
            TransactionCategory::Bolletta => "Bolletta"@,
            TransactionCategory::CartaDiCredito => "carta di credito"@,
            TransactionCategory::Pasto => "Pasto"@,
            TransactionCategory::PranzoLavoro => "pranzo lavoro"@,
            TransactionCategory::RataAuto => "rata auto"@,
            TransactionCategory::Regalo => "Regalo"@,
            TransactionCategory::RitiroBancomat => "ritiro bancomat"@,
            TransactionCategory::Sanita => "sanità"@,
            TransactionCategory::Scarpe => "Scarpe"@,
            TransactionCategory::Spesa => "Spesa"@,
            TransactionCategory::Stipendio => "Stipendio"@,
            TransactionCategory::Telefono => "Telefono"@,
            TransactionCategory::Treno => "Treno"@,
            TransactionCategory::Uscite => "Uscite"@,
            TransactionCategory::Varie => "Varie"@,
            TransactionCategory::Vestiti => "Vestiti"@,
            TransactionCategory::Vista => "Vista"@,
            TransactionCategory::Vacanza => "Vacanza"@,
        }
    }

    /// The printable name of the category.
    pub fn name(&self) -> (r: &'static str)
        ensures
            r@ == self.spec_name(),
    {
        match self {
            TransactionCategory::Affitto => "Affitto",
            TransactionCategory::Auto => "Auto",
            TransactionCategory::Banca => "Banca",
            TransactionCategory::Bolletta => "Bolletta",
            TransactionCategory::CartaDiCredito => "carta di credito",
            TransactionCategory::Pasto => "Pasto",
            TransactionCategory::PranzoLavoro => "pranzo lavoro",
            TransactionCategory::RataAuto => "rata auto",
            TransactionCategory::Regalo => "Regalo",
            TransactionCategory::RitiroBancomat => "ritiro bancomat",
            TransactionCategory::Sanita => "sanità",
            TransactionCategory::Scarpe => "Scarpe",
            TransactionCategory::Spesa => "Spesa",
            TransactionCategory::Stipendio => "Stipendio",
            TransactionCategory::Telefono => "Telefono",
            TransactionCategory::Treno => "Treno",
            TransactionCategory::Uscite => "Uscite",
            TransactionCategory::Varie => "Varie",
            TransactionCategory::Vestiti => "Vestiti",
            TransactionCategory::Vista => "Vista",
            TransactionCategory::Vacanza => "Vacanza",
        }
    }

    /// The printable name of the category, owned.
    pub fn to_string(&self) -> (r: String)
        ensures
            r@ == self.spec_name(),
    {
        self.name().to_owned()
    }
}

/// How many categories there are.
pub const CATEGORY_COUNT: usize = 21;

/// Every category, in declaration order.
pub open spec fn all_categories() -> Seq<TransactionCategory> {
    seq![
        TransactionCategory::Affitto,
        TransactionCategory::Auto,
        TransactionCategory::Banca,
        TransactionCategory::Bolletta,
        TransactionCategory::CartaDiCredito,
        TransactionCategory::Pasto,
        TransactionCategory::PranzoLavoro,
        TransactionCategory::RataAuto,
        TransactionCategory::Regalo,
        TransactionCategory::RitiroBancomat,
        TransactionCategory::Sanita,
        TransactionCategory::Scarpe,
        TransactionCategory::Spesa,
        TransactionCategory::Stipendio,
        TransactionCategory::Telefono,
        TransactionCategory::Treno,
        TransactionCategory::Uscite,
        TransactionCategory::Varie,
        TransactionCategory::Vestiti,
        TransactionCategory::Vista,
        TransactionCategory::Vacanza,
    ]
}

impl TransactionCategory {
    /// The category at position `i` of the declaration order.
    pub fn from_index(i: usize) -> (r: TransactionCategory)
        requires
            i < CATEGORY_COUNT,
        ensures
            r == all_categories()[i as int],
    {
        match i {
            0 => TransactionCategory::Affitto,
            1 => TransactionCategory::Auto,
            2 => TransactionCategory::Banca,
            3 => TransactionCategory::Bolletta,
            4 => TransactionCategory::CartaDiCredito,
            5 => TransactionCategory::Pasto,
            6 => TransactionCategory::PranzoLavoro,
            7 => TransactionCategory::RataAuto,
            8 => TransactionCategory::Regalo,
            9 => TransactionCategory::RitiroBancomat,
            10 => TransactionCategory::Sanita,
            11 => TransactionCategory::Scarpe,
            12 => TransactionCategory::Spesa,
            13 => TransactionCategory::Stipendio,
            14 => TransactionCategory::Telefono,
            15 => TransactionCategory::Treno,
            16 => TransactionCategory::Uscite,
            17 => TransactionCategory::Varie,
            18 => TransactionCategory::Vestiti,
            19 => TransactionCategory::Vista,
            _ => TransactionCategory::Vacanza,
        }
    }

    /// The position of the category in the declaration order.
    pub open spec fn spec_index(self) -> int {
        match self {
            TransactionCategory::Affitto => 0,
            TransactionCategory::Auto => 1,
            TransactionCategory::Banca => 2,
            TransactionCategory::Bolletta => 3,
            TransactionCategory::CartaDiCredito => 4,
            TransactionCategory::Pasto => 5,
            TransactionCategory::PranzoLavoro => 6,
            TransactionCategory::RataAuto => 7,
            TransactionCategory::Regalo => 8,
            TransactionCategory::RitiroBancomat => 9,
            TransactionCategory::Sanita => 10,
            TransactionCategory::Scarpe => 11,
            TransactionCategory::Spesa => 12,
            TransactionCategory::Stipendio => 13,
            TransactionCategory::Telefono => 14,
            TransactionCategory::Treno => 15,
            TransactionCategory::Uscite => 16,
            TransactionCategory::Varie => 17,
            TransactionCategory::Vestiti => 18,
            TransactionCategory::Vista => 19,
            TransactionCategory::Vacanza => 20,
        }
    }
}

/// Every category stands in the list of all categories, at its position.
pub proof fn lemma_category_index(c: TransactionCategory)
    ensures
        0 <= c.spec_index() < CATEGORY_COUNT,
        all_categories()[c.spec_index()] == c,
{
    match c {
        TransactionCategory::Affitto => assert(all_categories()[0] == c),
        TransactionCategory::Auto => assert(all_categories()[1] == c),
        TransactionCategory::Banca => assert(all_categories()[2] == c),
        TransactionCategory::Bolletta => assert(all_categories()[3] == c),
        TransactionCategory::CartaDiCredito => assert(all_categories()[4] == c),
        TransactionCategory::Pasto => assert(all_categories()[5] == c),
        TransactionCategory::PranzoLavoro => assert(all_categories()[6] == c),
        TransactionCategory::RataAuto => assert(all_categories()[7] == c),
        TransactionCategory::Regalo => assert(all_categories()[8] == c),
        TransactionCategory::RitiroBancomat => assert(all_categories()[9] == c),
        TransactionCategory::Sanita => assert(all_categories()[10] == c),
        TransactionCategory::Scarpe => assert(all_categories()[11] == c),
        TransactionCategory::Spesa => assert(all_categories()[12] == c),
        TransactionCategory::Stipendio => assert(all_categories()[13] == c),
        TransactionCategory::Telefono => assert(all_categories()[14] == c),
        TransactionCategory::Treno => assert(all_categories()[15] == c),
        TransactionCategory::Uscite => assert(all_categories()[16] == c),
        TransactionCategory::Varie => assert(all_categories()[17] == c),
        TransactionCategory::Vestiti => assert(all_categories()[18] == c),
        TransactionCategory::Vista => assert(all_categories()[19] == c),
        TransactionCategory::Vacanza => assert(all_categories()[20] == c),
    }
}

/// One monetary movement: a positive amount flows in, a negative one flows out.
/// Amounts are in cents.
pub struct TransactionEvent {
    pub date: Date,
    pub amount: i64,
    pub category: TransactionCategory,
    pub description: Option<String>,
    pub account: TransactionAccountName,
}

impl TransactionEvent {
    pub fn new(
        date: Date,
        amount: i64,
        category: TransactionCategory,
        description: Option<String>,
        account: TransactionAccountName,
    ) -> (r: TransactionEvent)
        ensures
            r.date == date,
            r.amount == amount,
            r.category == category,
            r.description == description,
            r.account == account,
    {
        TransactionEvent { date, amount, category, description, account }
    }
}

} // verus!
