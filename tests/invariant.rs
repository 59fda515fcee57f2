use budgit::data::{add_transact, create_main_category, create_sub_category, create_tables};
use budgit::model::{Date, MainCategory, Payee, SubCategory};

fn sample() -> budgit::ledger::Ledger {
    let mut l = create_tables();
    let m = create_main_category(&mut l, "Food".to_string()).unwrap();
    let s = create_sub_category(&mut l, "Groceries".to_string(), m).unwrap();
    add_transact(&mut l, s, "Market St".to_string(), "2021-06-05", "45.50").unwrap();
    l
}

#[test]
fn built_ledger_is_well_formed() {
    assert!(create_tables().is_well_formed());
    assert!(sample().is_well_formed());
}

#[test]
fn duplicate_payee_name_breaks_invariant() {
    let mut l = sample();
    l.payees.push(Payee { id: 5, name: "Market St".to_string(), sub_id: None, display: None });
    l.next_payee_id = 6;
    assert!(!l.is_well_formed());
}

#[test]
fn missing_parent_breaks_invariant() {
    let mut l = sample();
    l.sub_categories.push(SubCategory {
        id: 9,
        main_id: 42,
        name: "Lost".to_string(),
        note: None,
        display: None,
    });
    l.next_sub_id = 10;
    assert!(!l.is_well_formed());
}

#[test]
fn unordered_ids_break_invariant() {
    let mut l = sample();
    l.main_categories.push(MainCategory { id: 1, name: "Again".to_string(), note: None, display: None });
    assert!(!l.is_well_formed());
    let mut l = sample();
    l.next_main_id = 1;
    assert!(!l.is_well_formed());
}

#[test]
fn invalid_date_breaks_invariant() {
    let mut l = sample();
    l.transactions[0].date = Date { year: 2021, month: 2, day: 30 };
    assert!(!l.is_well_formed());
}
