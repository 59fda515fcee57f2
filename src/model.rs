use vstd::prelude::*;

verus! {

/// A calendar date.
#[derive(Clone, Copy, Debug, PartialEq, Eq, Structural)]
pub struct Date {
    pub year: u16,
    pub month: u8,
    pub day: u8,
}

/// Two-digit years are read in this century: year `y` of a query means `2000 + y`.
pub const CENTURY_BASE: u16 = 2000;

pub open spec fn is_leap_year(y: int) -> bool {
    y % 4 == 0 && (y % 100 != 0 || y % 400 == 0)
}

pub open spec fn days_in_month(y: int, m: int) -> int {
    if m == 2 {
        if is_leap_year(y) { 29 } else { 28 }
    } else if m == 4 || m == 6 || m == 9 || m == 11 {
        30
    } else {
        31
    }
}

impl Date {
    pub open spec fn valid(self) -> bool {
        1 <= self.month <= 12 && 1 <= self.day <= days_in_month(self.year as int, self.month as int)
    }

    /// The date lies in month `month` of the two-digit year `year`: truncated to the
    /// first of its month it equals `20YY-MM-01`. No date matches a year above 99 or
    /// a month outside 1..=12, since no such first day exists.
    pub open spec fn in_month(self, year: u16, month: u16) -> bool {
        year <= 99 && self.year == CENTURY_BASE + year && self.month as u16 == month
            && 1 <= month <= 12
    }
}

pub fn days_in_month_exec(y: u16, m: u8) -> (r: u8)
    ensures
        r as int == days_in_month(y as int, m as int),
{
    if m == 2 {
        if y % 4 == 0 && (y % 100 != 0 || y % 400 == 0) {
            29
        } else {
            28
        }
    } else if m == 4 || m == 6 || m == 9 || m == 11 {
        30
    } else {
        31
    }
}

/// Errors of the ledger's operations.
#[derive(Clone, Copy, Debug, PartialEq, Eq, Structural)]
pub enum LedgerError {
    /// A referenced id does not exist.
    NotFound,
    /// A new row would reference a parent that does not exist.
    InvalidReference,
    /// A date or amount text is not well formed.
    InvalidInput,
    /// A table has handed out every identifier it can hold.
    StorageFull,
}

/// A top-level budget grouping.
#[derive(Clone, Debug)]
pub struct MainCategory {
    pub id: u64,
    pub name: String,
    pub note: Option<String>,
    pub display: Option<String>,
}

/// A budget line inside a main category.
#[derive(Clone, Debug)]
pub struct SubCategory {
    pub id: u64,
    pub main_id: u64,
    pub name: String,
    pub note: Option<String>,
    pub display: Option<String>,
}

/// The amount, in cents, planned for a subcategory in one month of a two-digit year.
#[derive(Clone, Copy, Debug, PartialEq, Eq, Structural)]
pub struct MonthlyBudget {
    pub id: u64,
    pub sub_id: u64,
    pub year: u16,
    pub month: u16,
    pub amount: i64,
}

/// The counterparty of a transaction.
#[derive(Clone, Debug)]
pub struct Payee {
    pub id: u64,
    pub name: String,
    pub sub_id: Option<u64>,
    pub display: Option<String>,
}

/// One recorded spend, its amount in cents.
#[derive(Clone, Debug)]
pub struct Transaction {
    pub id: u64,
    pub account_id: u64,
    pub sub_id: u64,
    pub split_id: u64,
    pub payee_id: u64,
    pub date: Date,
    pub amount: i64,
    pub direction: Option<String>,
}

/// Budgeted and spent amounts, in cents, of one subcategory in one month.
#[derive(Clone, Debug)]
pub struct SubCategorySummary {
    pub id: u64,
    pub name: String,
    pub budgeted: i64,
    pub spent: i128,
}

/// A main category with the monthly summary of each of its subcategories.
#[derive(Clone, Debug)]
pub struct MainCategorySummary {
    pub id: u64,
    pub name: String,
    pub sc: Vec<SubCategorySummary>,
}

} // verus!
