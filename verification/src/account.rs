//! The canonical account model, the two source record schemas, and the
//! conversion rule that takes each of them to a canonical account.

use vstd::prelude::*;

use crate::money::{Money, MoneyV, minor_units_spec};
use crate::school::School;

verus! {

/// Drink and recharge history carried by a canonical account. The drink
/// quantity is a whole count (a sum of two per-kind counts); the recharge
/// total is stored in integer minor units.
#[derive(Debug, Clone, Copy, PartialEq, Eq, Structural)]
pub struct Stats {
    pub quantity_drank: u64,
    pub total_money: i64,
}

/// The mathematical content of a canonical account.
pub struct AccountV {
    pub last_name: Seq<char>,
    pub first_name: Seq<char>,
    pub school: School,
    pub is_member: bool,
    pub balance: int,
    pub quantity_drank: int,
    pub total_money: int,
}

/// The canonical account: the one schema every source converges to and every
/// sink consumes. The balance is held in integer minor currency units — the
/// rounded result of the source amount times one hundred — never as a
/// fractional number, so repeated conversions cannot drift.
#[derive(Debug, Clone, PartialEq, Eq)]
pub struct Account {
    pub last_name: String,
    pub first_name: String,
    pub school: School,
    pub is_member: bool,
    pub balance: i64,
    pub stats: Stats,
}

impl View for Account {
    type V = AccountV;

    open spec fn view(&self) -> AccountV {
        AccountV {
            last_name: self.last_name@,
            first_name: self.first_name@,
            school: self.school,
            is_member: self.is_member,
            balance: self.balance as int,
            quantity_drank: self.stats.quantity_drank as int,
            total_money: self.stats.total_money as int,
        }
    }
}

impl DeepView for Account {
    type V = AccountV;

    open spec fn deep_view(&self) -> AccountV {
        self.view()
    }
}

/// A record of the import-list schema: plain tabular rows that carry no
/// membership flag and no history.
pub struct CsvRecordV {
    pub last_name: Seq<char>,
    pub first_name: Seq<char>,
    pub school: School,
    pub balance: MoneyV,
}

#[derive(Debug, Clone)]
pub struct CsvRecord {
    pub last_name: String,
    pub first_name: String,
    pub school: School,
    pub balance: Money,
}

impl View for CsvRecord {
    type V = CsvRecordV;

    open spec fn view(&self) -> CsvRecordV {
        CsvRecordV {
            last_name: self.last_name@,
            first_name: self.first_name@,
            school: self.school,
            balance: self.balance@,
        }
    }
}

/// A record of the full spreadsheet-export schema: it carries an explicit
/// membership flag and the drink/recharge history.
pub struct SheetRecordV {
    pub last_name: Seq<char>,
    pub first_name: Seq<char>,
    pub school: School,
    pub is_member: bool,
    pub balance: MoneyV,
    pub normal_count: u32,
    pub special_count: u32,
    pub recharge: MoneyV,
}

#[derive(Debug, Clone)]
pub struct SheetRecord {
    pub last_name: String,
    pub first_name: String,
    pub school: School,
    pub is_member: bool,
    pub balance: Money,
    pub normal_count: u32,
    pub special_count: u32,
    pub recharge: Money,
}

impl View for SheetRecord {
    type V = SheetRecordV;

    open spec fn view(&self) -> SheetRecordV {
        SheetRecordV {
            last_name: self.last_name@,
            first_name: self.first_name@,
            school: self.school,
            is_member: self.is_member,
            balance: self.balance@,
            normal_count: self.normal_count,
            special_count: self.special_count,
            recharge: self.recharge@,
        }
    }
}

/// The canonical form of an import-list record: membership is implied by
/// presence in the import file, history defaults to zero, and the balance is
/// rounded to minor units here and nowhere else.
pub open spec fn csv_canonical_spec(r: CsvRecordV) -> AccountV {
    AccountV {
        last_name: r.last_name,
        first_name: r.first_name,
        school: r.school,
        is_member: true,
        balance: minor_units_spec(r.balance),
        quantity_drank: 0,
        total_money: 0,
    }
}

/// The canonical form of a full-export record: the membership flag is carried
/// through unchanged, the drink quantity is the sum of the two per-kind
/// counts, and both amounts are rounded to minor units.
pub open spec fn sheet_canonical_spec(r: SheetRecordV) -> AccountV {
    AccountV {
        last_name: r.last_name,
        first_name: r.first_name,
        school: r.school,
        is_member: r.is_member,
        balance: minor_units_spec(r.balance),
        quantity_drank: r.normal_count + r.special_count,
        total_money: minor_units_spec(r.recharge),
    }
}

/// The one conversion every source record type implements: each record kind
/// converges on the canonical account model through its own exact rule.
pub trait ToCanonical {
    spec fn convertible(&self) -> bool;

    spec fn canonical_spec(&self) -> AccountV;

    fn to_canonical(&self) -> (a: Account)
        requires
            self.convertible(),
        ensures
            a@ == self.canonical_spec(),
    ;
}

impl ToCanonical for CsvRecord {
    open spec fn convertible(&self) -> bool {
        self.balance.wf()
    }

    open spec fn canonical_spec(&self) -> AccountV {
        csv_canonical_spec(self@)
    }

    fn to_canonical(&self) -> (a: Account) {
        Account {
            last_name: self.last_name.clone(),
            first_name: self.first_name.clone(),
            school: self.school,
            is_member: true,
            balance: self.balance.to_minor_units(),
            stats: Stats { quantity_drank: 0, total_money: 0 },
        }
    }
}

impl ToCanonical for SheetRecord {
    open spec fn convertible(&self) -> bool {
        self.balance.wf() && self.recharge.wf()
    }

    open spec fn canonical_spec(&self) -> AccountV {
        sheet_canonical_spec(self@)
    }

    fn to_canonical(&self) -> (a: Account) {
        Account {
            last_name: self.last_name.clone(),
            first_name: self.first_name.clone(),
            school: self.school,
            is_member: self.is_member,
            balance: self.balance.to_minor_units(),
            stats: Stats {
                quantity_drank: self.normal_count as u64 + self.special_count as u64,
                total_money: self.recharge.to_minor_units(),
            },
        }
    }
}

/// The conversion rule is deterministic: records with the same mathematical
/// content yield accounts with identical fields.
pub proof fn lemma_to_canonical_deterministic(r1: CsvRecordV, r2: CsvRecordV)
    requires
        r1 == r2,
    ensures
        csv_canonical_spec(r1) == csv_canonical_spec(r2),
{
}

} // verus!
