use budgit::data::{
    add_transact, create_main_category, create_sub_category, create_tables, delete_sub_category,
    get_all_main_categories, get_main_category, get_payee_datalist, get_payee_id,
    get_sub_categories, resolve_payee, set_monthly_budget,
};
use budgit::model::LedgerError;

#[test]
fn budget_and_spend_of_one_month() {
    let mut l = create_tables();
    let food = create_main_category(&mut l, "Food".to_string()).unwrap();
    let groceries = create_sub_category(&mut l, "Groceries".to_string(), food).unwrap();
    set_monthly_budget(&mut l, groceries, 21, 6, 30000).unwrap();
    add_transact(&mut l, groceries, "Market St".to_string(), "2021-06-05", "45.50").unwrap();
    add_transact(&mut l, groceries, "Market St".to_string(), "2021-06-20", "30.00").unwrap();
    add_transact(&mut l, groceries, "Other".to_string(), "2021-07-01", "99.00").unwrap();
    let r = get_sub_categories(&l, food, 21, 6);
    assert_eq!(r.len(), 1);
    assert_eq!(r[0].name, "Groceries");
    assert_eq!(r[0].id, groceries);
    assert_eq!(r[0].budgeted, 30000);
    assert_eq!(r[0].spent, 7550);
    let july = get_sub_categories(&l, food, 21, 7);
    assert_eq!(july[0].budgeted, 0);
    assert_eq!(july[0].spent, 9900);
}

#[test]
fn empty_month_is_zero() {
    let mut l = create_tables();
    let food = create_main_category(&mut l, "Food".to_string()).unwrap();
    let groceries = create_sub_category(&mut l, "Groceries".to_string(), food).unwrap();
    let r = get_sub_categories(&l, food, 21, 3);
    assert_eq!(r.len(), 1);
    assert_eq!(r[0].id, groceries);
    assert_eq!(r[0].budgeted, 0);
    assert_eq!(r[0].spent, 0);
}

#[test]
fn same_payee_twice_makes_one_payee() {
    let mut l = create_tables();
    let food = create_main_category(&mut l, "Food".to_string()).unwrap();
    let s = create_sub_category(&mut l, "Drinks".to_string(), food).unwrap();
    let t1 = add_transact(&mut l, s, "Coffee Shop".to_string(), "2021-06-01", "3.20").unwrap();
    let t2 = add_transact(&mut l, s, "Coffee Shop".to_string(), "2021-06-02", "2.80").unwrap();
    assert_ne!(t1, t2);
    assert_eq!(l.payees.len(), 1);
    assert_eq!(l.payees[0].name, "Coffee Shop");
    assert_eq!(l.transactions.len(), 2);
    let pid = get_payee_id(&l, &"Coffee Shop".to_string()).unwrap();
    assert_eq!(l.transactions[0].payee_id, pid);
    assert_eq!(l.transactions[1].payee_id, pid);
    assert_eq!(l.transactions[0].account_id, 0);
    assert_eq!(l.transactions[0].split_id, 0);
}

#[test]
fn resolve_payee_is_idempotent() {
    let mut l = create_tables();
    let a = resolve_payee(&mut l, "Bakery".to_string()).unwrap();
    let b = resolve_payee(&mut l, "Bakery".to_string()).unwrap();
    let c = resolve_payee(&mut l, "Butcher".to_string()).unwrap();
    assert_eq!(a, b);
    assert_ne!(a, c);
    assert_eq!(l.payees.len(), 2);
    assert_eq!(get_payee_datalist(&l), vec!["Bakery".to_string(), "Butcher".to_string()]);
}

#[test]
fn unknown_payee_is_not_found() {
    let l = create_tables();
    assert_eq!(get_payee_id(&l, &"Nobody".to_string()), Err(LedgerError::NotFound));
}

#[test]
fn delete_keeps_orphan_transactions() {
    let mut l = create_tables();
    let food = create_main_category(&mut l, "Food".to_string()).unwrap();
    let a = create_sub_category(&mut l, "Groceries".to_string(), food).unwrap();
    let b = create_sub_category(&mut l, "Dining".to_string(), food).unwrap();
    add_transact(&mut l, a, "Market St".to_string(), "2021-06-05", "10").unwrap();
    delete_sub_category(&mut l, a);
    let r = get_sub_categories(&l, food, 21, 6);
    assert_eq!(r.len(), 1);
    assert_eq!(r[0].id, b);
    assert_eq!(l.transactions.len(), 1);
    assert_eq!(l.transactions[0].sub_id, a);
    delete_sub_category(&mut l, a);
    assert_eq!(l.sub_categories.len(), 1);
}

#[test]
fn sub_category_needs_main_category() {
    let mut l = create_tables();
    assert_eq!(
        create_sub_category(&mut l, "Groceries".to_string(), 7),
        Err(LedgerError::InvalidReference)
    );
    assert_eq!(l.sub_categories.len(), 0);
}

#[test]
fn unknown_main_category_is_not_found() {
    let mut l = create_tables();
    create_main_category(&mut l, "Food".to_string()).unwrap();
    assert_eq!(get_main_category(&l, 21, 6, 9).err(), Some(LedgerError::NotFound));
}

#[test]
fn main_category_with_summaries() {
    let mut l = create_tables();
    let food = create_main_category(&mut l, "Food".to_string()).unwrap();
    let home = create_main_category(&mut l, String::new()).unwrap();
    let s = create_sub_category(&mut l, "Rent".to_string(), home).unwrap();
    set_monthly_budget(&mut l, s, 22, 1, 80000).unwrap();
    let m = get_main_category(&l, 22, 1, home).unwrap();
    assert_eq!(m.id, home);
    assert_eq!(m.name, "");
    assert_eq!(m.sc.len(), 1);
    assert_eq!(m.sc[0].budgeted, 80000);
    let all = get_all_main_categories(&l, 22, 1);
    assert_eq!(all.len(), 2);
    assert_eq!(all[0].id, food);
    assert_eq!(all[0].name, "Food");
    assert_eq!(all[0].sc.len(), 0);
    assert_eq!(all[1].sc[0].id, s);
}

#[test]
fn budget_is_updated_not_duplicated() {
    let mut l = create_tables();
    let food = create_main_category(&mut l, "Food".to_string()).unwrap();
    let s = create_sub_category(&mut l, "Groceries".to_string(), food).unwrap();
    let r1 = set_monthly_budget(&mut l, s, 21, 6, 100).unwrap();
    let r2 = set_monthly_budget(&mut l, s, 21, 6, 250).unwrap();
    set_monthly_budget(&mut l, s, 21, 7, 999).unwrap();
    assert_eq!(r1, r2);
    assert_eq!(l.budgets.len(), 2);
    assert_eq!(get_sub_categories(&l, food, 21, 6)[0].budgeted, 250);
    assert_eq!(get_sub_categories(&l, food, 21, 7)[0].budgeted, 999);
}

#[test]
fn bad_date_or_amount_is_rejected() {
    let mut l = create_tables();
    assert_eq!(add_transact(&mut l, 1, "X".to_string(), "2021-13-01", "1"), Err(LedgerError::InvalidInput));
    assert_eq!(add_transact(&mut l, 1, "X".to_string(), "2021-02-29", "1"), Err(LedgerError::InvalidInput));
    assert_eq!(add_transact(&mut l, 1, "X".to_string(), "2021-06-01", "1.234"), Err(LedgerError::InvalidInput));
    assert_eq!(add_transact(&mut l, 1, "X".to_string(), "2021-06-01", "abc"), Err(LedgerError::InvalidInput));
    assert_eq!(l.payees.len(), 0);
    assert_eq!(l.transactions.len(), 0);
    assert!(add_transact(&mut l, 1, "X".to_string(), "2020-02-29", "-1.5").is_ok());
    assert_eq!(l.transactions[0].amount, -150);
}

#[test]
fn exhausted_identifiers_are_refused() {
    let mut l = create_tables();
    l.next_main_id = u64::MAX;
    assert_eq!(create_main_category(&mut l, "Food".to_string()), Err(LedgerError::StorageFull));
    assert_eq!(l.main_categories.len(), 0);
}

#[test]
fn century_and_month_rules() {
    let mut l = create_tables();
    let food = create_main_category(&mut l, "Food".to_string()).unwrap();
    let s = create_sub_category(&mut l, "Groceries".to_string(), food).unwrap();
    add_transact(&mut l, s, "A".to_string(), "1921-06-05", "1").unwrap();
    add_transact(&mut l, s, "A".to_string(), "2121-06-05", "2").unwrap();
    add_transact(&mut l, s, "A".to_string(), "2021-06-30", "4").unwrap();
    assert_eq!(get_sub_categories(&l, food, 21, 6)[0].spent, 400);
    assert_eq!(get_sub_categories(&l, food, 121, 6)[0].spent, 0);
    assert_eq!(get_sub_categories(&l, food, 21, 0)[0].spent, 0);
}
