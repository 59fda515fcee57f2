//! A personal budgeting ledger: a two-level category hierarchy, payees,
//! transactions, monthly budgets, and the per-month comparison of what was
//! budgeted against what was spent.
pub mod model;
pub mod parse;
pub mod ledger;
pub mod data;
pub mod laws;
