//! The ledger's operations: categories, payees, transactions, budgets and the
//! monthly summaries.
use vstd::prelude::*;
use crate::ledger::{
    budget_key_is, budget_keys_unique, has_main, payee_names_unique, ids_ordered, lemma_ids_push, lemma_ids_remove,
    budget_ids, has_payee_id, has_payee_named, main_ids, main_with_id, payee_id_named, payee_ids,
    sub_ids, transaction_ids, Ledger,
};
use crate::model::{
    LedgerError, MainCategory, MainCategorySummary, MonthlyBudget, Payee, SubCategory,
    SubCategorySummary, Transaction, CENTURY_BASE,
};
use crate::parse::{cents_of, date_of, parse_amount, parse_date};
use vstd::string::StringSliceAdditionalSpecFns;

verus! {

/// The subcategories of `s` other than the one with identifier `id`, in order.
pub open spec fn without_sub(s: Seq<SubCategory>, id: u64) -> Seq<SubCategory>
    decreases s.len(),
{
    if s.len() == 0 {
        s
    } else {
        let r = without_sub(s.drop_last(), id);
        if s.last().id == id {
            r
        } else {
            r.push(s.last())
        }
    }
}

/// A new, empty ledger with all of its tables.
pub fn create_tables() -> (r: Ledger)
    ensures
        r.wf(),
        r.main_categories@.len() == 0,
        r.sub_categories@.len() == 0,
        r.budgets@.len() == 0,
        r.payees@.len() == 0,
        r.transactions@.len() == 0,
        r.next_main_id == 1,
        r.next_sub_id == 1,
        r.next_budget_id == 1,
        r.next_payee_id == 1,
        r.next_transaction_id == 1,
{
    Ledger::new()
}

/// Adds a main category called `name` and returns its identifier.
pub fn create_main_category(ledger: &mut Ledger, name: String) -> (r: Result<u64, LedgerError>)
    requires
        old(ledger).wf(),
    ensures
        final(ledger).wf(),
        r is Err <==> old(ledger).next_main_id == u64::MAX,
        r matches Err(e) ==> e == LedgerError::StorageFull && *final(ledger) == *old(ledger),
        r matches Ok(id) ==> {
            &&& id == old(ledger).next_main_id
            &&& final(ledger).main_categories@ == old(ledger).main_categories@.push(
                MainCategory { id, name, note: None, display: None },
            )
            &&& final(ledger).next_main_id == id + 1
            &&& final(ledger).sub_categories == old(ledger).sub_categories
            &&& final(ledger).next_sub_id == old(ledger).next_sub_id
            &&& final(ledger).budgets == old(ledger).budgets
            &&& final(ledger).next_budget_id == old(ledger).next_budget_id
            &&& final(ledger).payees == old(ledger).payees
            &&& final(ledger).next_payee_id == old(ledger).next_payee_id
            &&& final(ledger).transactions == old(ledger).transactions
            &&& final(ledger).next_transaction_id == old(ledger).next_transaction_id
        },
{
    let id = ledger.next_main_id;
    if id == u64::MAX {
        return Err(LedgerError::StorageFull);
    }
    let ghost m0 = ledger.main_categories@;
    ledger.main_categories.push(MainCategory { id, name, note: None, display: None });
    ledger.next_main_id = id + 1;
    proof {
        let m = ledger.main_categories@;
        assert forall|i: int| 0 <= i < ledger.sub_categories@.len() implies has_main(
            m,
            #[trigger] ledger.sub_categories@[i].main_id,
        ) by {
            let mid = ledger.sub_categories@[i].main_id;
            let j = choose|j: int| 0 <= j < m0.len() && #[trigger] m0[j].id == mid;
            assert(m[j].id == mid);
        }
        assert(main_ids(m) =~= main_ids(m0).push(id));
        lemma_ids_push(main_ids(m0), id);
    }
    Ok(id)
}

/// Adds a subcategory called `name` under the main category `maincat_id` and returns
/// its identifier.
pub fn create_sub_category(ledger: &mut Ledger, name: String, maincat_id: u64) -> (r: Result<
    u64,
    LedgerError,
>)
    requires
        old(ledger).wf(),
    ensures
        final(ledger).wf(),
        r == Err::<u64, LedgerError>(LedgerError::InvalidReference) <==> !has_main(
            old(ledger).main_categories@,
            maincat_id,
        ),
        r == Err::<u64, LedgerError>(LedgerError::StorageFull) <==> has_main(
            old(ledger).main_categories@,
            maincat_id,
        ) && old(ledger).next_sub_id == u64::MAX,
        r matches Err(e) ==> e == LedgerError::InvalidReference || e == LedgerError::StorageFull,
        r is Err ==> *final(ledger) == *old(ledger),
        r matches Ok(id) ==> {
            &&& id == old(ledger).next_sub_id
            &&& final(ledger).sub_categories@ == old(ledger).sub_categories@.push(
                SubCategory { id, main_id: maincat_id, name, note: None, display: None },
            )
            &&& final(ledger).next_sub_id == id + 1
            &&& final(ledger).main_categories == old(ledger).main_categories
            &&& final(ledger).next_main_id == old(ledger).next_main_id
            &&& final(ledger).budgets == old(ledger).budgets
            &&& final(ledger).next_budget_id == old(ledger).next_budget_id
            &&& final(ledger).payees == old(ledger).payees
            &&& final(ledger).next_payee_id == old(ledger).next_payee_id
            &&& final(ledger).transactions == old(ledger).transactions
            &&& final(ledger).next_transaction_id == old(ledger).next_transaction_id
        },
{
    let mut i: usize = 0;
    while i < ledger.main_categories.len()
        invariant
            i <= ledger.main_categories@.len(),
            forall|j: int| 0 <= j < i ==> ledger.main_categories@[j].id != maincat_id,
        ensures
            i < ledger.main_categories@.len() ==> ledger.main_categories@[i as int].id
                == maincat_id,
        decreases ledger.main_categories@.len() - i,
    {
        if ledger.main_categories[i].id == maincat_id {
            break;
        }
        i = i + 1;
    }
    if i == ledger.main_categories.len() {
        return Err(LedgerError::InvalidReference);
    }
    let id = ledger.next_sub_id;
    if id == u64::MAX {
        return Err(LedgerError::StorageFull);
    }
    let ghost s0 = ledger.sub_categories@;
    ledger.sub_categories.push(
        SubCategory { id, main_id: maincat_id, name, note: None, display: None },
    );
    ledger.next_sub_id = id + 1;
    proof {
        let s = ledger.sub_categories@;
        assert(sub_ids(s) =~= sub_ids(s0).push(id));
        lemma_ids_push(sub_ids(s0), id);
        assert(forall|i: int| 0 <= i < s.len() - 1 ==> s[i] == s.drop_last()[i]);
        assert(has_main(ledger.main_categories@, s[s.len() - 1].main_id));
    }
    Ok(id)
}

/// Removing the unique subcategory with identifier `id` from `s`.
proof fn lemma_without_sub_remove(s: Seq<SubCategory>, id: u64, next: u64, k: int)
    requires
        ids_ordered(sub_ids(s), next),
        0 <= k < s.len(),
        s[k].id == id,
    ensures
        without_sub(s, id) == s.remove(k),
    decreases s.len(),
{
    let t = s.drop_last();
    assert(sub_ids(t) =~= sub_ids(s).drop_last());
    if k == s.len() - 1 {
        assert forall|i: int| 0 <= i < t.len() implies #[trigger] t[i].id != id by {
            assert(sub_ids(s)[i] < sub_ids(s)[k]);
        }
        lemma_without_sub_absent(t, id);
        assert(s.remove(k) =~= t);
    } else {
        assert(s.last().id != id) by {
            assert(sub_ids(s)[k] < sub_ids(s)[s.len() - 1]);
        }
        lemma_without_sub_remove(t, id, next, k);
        assert(s.remove(k) =~= t.remove(k).push(s.last()));
    }
}

/// Removing an identifier that `s` does not hold leaves `s` as it is.
pub proof fn lemma_without_sub_absent(s: Seq<SubCategory>, id: u64)
    requires
        forall|i: int| 0 <= i < s.len() ==> #[trigger] s[i].id != id,
    ensures
        without_sub(s, id) == s,
    decreases s.len(),
{
    if s.len() > 0 {
        let t = s.drop_last();
        assert(forall|i: int| 0 <= i < t.len() ==> t[i] == s[i]);
        lemma_without_sub_absent(t, id);
        assert(t.push(s.last()) =~= s);
    }
}

/// Deletes the subcategory `subcat_id`, if there is one. Transactions and budget rows
/// that name it are kept.
pub fn delete_sub_category(ledger: &mut Ledger, subcat_id: u64)
    requires
        old(ledger).wf(),
    ensures
        final(ledger).wf(),
        final(ledger).sub_categories@ == without_sub(old(ledger).sub_categories@, subcat_id),
        final(ledger).next_sub_id == old(ledger).next_sub_id,
        final(ledger).main_categories == old(ledger).main_categories,
        final(ledger).next_main_id == old(ledger).next_main_id,
        final(ledger).budgets == old(ledger).budgets,
        final(ledger).next_budget_id == old(ledger).next_budget_id,
        final(ledger).payees == old(ledger).payees,
        final(ledger).next_payee_id == old(ledger).next_payee_id,
        final(ledger).transactions == old(ledger).transactions,
        final(ledger).next_transaction_id == old(ledger).next_transaction_id,
{
    let mut i: usize = 0;
    while i < ledger.sub_categories.len()
        invariant
            i <= ledger.sub_categories@.len(),
            forall|j: int| 0 <= j < i ==> #[trigger] ledger.sub_categories@[j].id != subcat_id,
        ensures
            i < ledger.sub_categories@.len() ==> ledger.sub_categories@[i as int].id == subcat_id,
        decreases ledger.sub_categories@.len() - i,
    {
        if ledger.sub_categories[i].id == subcat_id {
            break;
        }
        i = i + 1;
    }
    if i == ledger.sub_categories.len() {
        proof {
            lemma_without_sub_absent(ledger.sub_categories@, subcat_id);
        }
        return;
    }
    let ghost s0 = ledger.sub_categories@;
    proof {
        lemma_without_sub_remove(s0, subcat_id, ledger.next_sub_id, i as int);
    }
    ledger.sub_categories.remove(i);
    proof {
        let s = ledger.sub_categories@;
        assert(sub_ids(s) =~= sub_ids(s0).remove(i as int));
        lemma_ids_remove(sub_ids(s0), ledger.next_sub_id, i as int);
        assert forall|j: int| 0 <= j < s.len() implies has_main(
            ledger.main_categories@,
            #[trigger] s[j].main_id,
        ) by {
            let a = if j < i { j } else { j + 1 };
            assert(s[j] == s0[a]);
        }
    }
}

/// Whether a transaction is counted for subcategory `sub_id` in the given month.
pub open spec fn counts_for(t: Transaction, sub_id: u64, year: u16, month: u16) -> bool {
    t.sub_id == sub_id && t.date.in_month(year, month)
}

/// The sum of the amounts of the transactions of `sub_id` dated in the given month;
/// zero when there is none.
pub open spec fn spent_of(txs: Seq<Transaction>, sub_id: u64, year: u16, month: u16) -> int
    decreases txs.len(),
{
    if txs.len() == 0 {
        0
    } else {
        spent_of(txs.drop_last(), sub_id, year, month) + if counts_for(
            txs.last(),
            sub_id,
            year,
            month,
        ) {
            txs.last().amount as int
        } else {
            0
        }
    }
}

pub open spec fn has_budget(budgets: Seq<MonthlyBudget>, sub_id: u64, year: u16, month: u16) -> bool {
    exists|j: int| 0 <= j < budgets.len() && budget_key_is(#[trigger] budgets[j], sub_id, year, month)
}

/// The amount of the budget row of `sub_id` for the given month, or zero without one.
pub open spec fn budgeted_of(budgets: Seq<MonthlyBudget>, sub_id: u64, year: u16, month: u16) -> int {
    if has_budget(budgets, sub_id, year, month) {
        budgets[budget_index(budgets, sub_id, year, month)].amount as int
    } else {
        0
    }
}

/// The position of the budget row of `sub_id` for the given month, where there is one.
pub open spec fn budget_index(budgets: Seq<MonthlyBudget>, sub_id: u64, year: u16, month: u16) -> int {
    choose|j: int| 0 <= j < budgets.len() && budget_key_is(#[trigger] budgets[j], sub_id, year, month)
}

/// The subcategories of `s` under main category `main_id`, in order.
pub open spec fn subs_of(s: Seq<SubCategory>, main_id: u64) -> Seq<SubCategory>
    decreases s.len(),
{
    if s.len() == 0 {
        s
    } else {
        let r = subs_of(s.drop_last(), main_id);
        if s.last().main_id == main_id {
            r.push(s.last())
        } else {
            r
        }
    }
}

/// `r` is the summary of subcategory `s` in the given month.
pub open spec fn summarizes(
    r: SubCategorySummary,
    s: SubCategory,
    l: Ledger,
    year: u16,
    month: u16,
) -> bool {
    &&& r.id == s.id
    &&& r.name@ == s.name@
    &&& r.budgeted as int == budgeted_of(l.budgets@, s.id, year, month)
    &&& r.spent as int == spent_of(l.transactions@, s.id, year, month)
}

/// `r` summarizes, in order, the subcategories of main category `main_id`.
pub open spec fn summaries_of(
    r: Seq<SubCategorySummary>,
    l: Ledger,
    main_id: u64,
    year: u16,
    month: u16,
) -> bool {
    &&& r.len() == subs_of(l.sub_categories@, main_id).len()
    &&& forall|k: int|
        0 <= k < r.len() ==> summarizes(
            #[trigger] r[k],
            subs_of(l.sub_categories@, main_id)[k],
            l,
            year,
            month,
        )
}

fn in_month_exec(t: &Transaction, year: u16, month: u16) -> (r: bool)
    ensures
        r == t.date.in_month(year, month),
{
    year <= 99 && t.date.year == CENTURY_BASE + year && t.date.month as u16 == month && 1 <= month
        && month <= 12
}

/// What was spent on `sub_id` in the given month.
fn spent_in_month(txs: &Vec<Transaction>, sub_id: u64, year: u16, month: u16) -> (r: i128)
    ensures
        r as int == spent_of(txs@, sub_id, year, month),
{
    let mut acc: i128 = 0;
    let mut i: usize = 0;
    while i < txs.len()
        invariant
            i <= txs@.len(),
            acc as int == spent_of(txs@.take(i as int), sub_id, year, month),
            -(i as int) * 0x8000_0000_0000_0000 <= acc as int <= (i as int) * 0x8000_0000_0000_0000,
        decreases txs@.len() - i,
    {
        let t = &txs[i];
        assert(txs@.take(i + 1).drop_last() =~= txs@.take(i as int));
        if t.sub_id == sub_id && in_month_exec(t, year, month) {
            acc = acc + t.amount as i128;
        }
        i = i + 1;
    }
    assert(txs@.take(i as int) =~= txs@);
    acc
}

/// What was budgeted for `sub_id` in the given month.
fn budgeted_in_month(budgets: &Vec<MonthlyBudget>, sub_id: u64, year: u16, month: u16) -> (r: i64)
    requires
        budget_keys_unique(budgets@),
    ensures
        r as int == budgeted_of(budgets@, sub_id, year, month),
{
    let mut i: usize = 0;
    while i < budgets.len()
        invariant
            i <= budgets@.len(),
            budget_keys_unique(budgets@),
            forall|j: int| 0 <= j < i ==> !budget_key_is(#[trigger] budgets@[j], sub_id, year, month),
        decreases budgets@.len() - i,
    {
        let b = budgets[i];
        if b.sub_id == sub_id && b.year == year && b.month == month {
            proof {
                assert(budget_key_is(budgets@[i as int], sub_id, year, month));
                let c = choose|j: int|
                    0 <= j < budgets@.len() && budget_key_is(#[trigger] budgets@[j], sub_id, year, month);
                let bi = budgets@[i as int];
                if c != i {
                    assert(!budget_key_is(budgets@[c], bi.sub_id, bi.year, bi.month));
                }
            }
            return b.amount;
        }
        i = i + 1;
    }
    0
}

/// Budgeted and spent amounts of every subcategory of main category `main_cat` in
/// month `month` of year `2000 + year`.
pub fn get_sub_categories(ledger: &Ledger, main_cat: u64, year: u16, month: u16) -> (r: Vec<
    SubCategorySummary,
>)
    requires
        ledger.wf(),
    ensures
        summaries_of(r@, *ledger, main_cat, year, month),
{
    let mut r: Vec<SubCategorySummary> = Vec::new();
    let mut i: usize = 0;
    let ghost subs = ledger.sub_categories@;
    while i < ledger.sub_categories.len()
        invariant
            i <= subs.len(),
            subs == ledger.sub_categories@,
            ledger.wf(),
            r@.len() == subs_of(subs.take(i as int), main_cat).len(),
            forall|k: int|
                0 <= k < r@.len() ==> summarizes(
                    #[trigger] r@[k],
                    subs_of(subs.take(i as int), main_cat)[k],
                    *ledger,
                    year,
                    month,
                ),
        decreases subs.len() - i,
    {
        let s = &ledger.sub_categories[i];
        assert(subs.take(i + 1).drop_last() =~= subs.take(i as int));
        if s.main_id == main_cat {
            let budgeted = budgeted_in_month(&ledger.budgets, s.id, year, month);
            let spent = spent_in_month(&ledger.transactions, s.id, year, month);
            r.push(SubCategorySummary { id: s.id, name: s.name.clone(), budgeted, spent });
        }
        i = i + 1;
    }
    assert(subs.take(i as int) =~= subs);
    r
}

/// `r` describes main category `m` with the summaries of its subcategories.
pub open spec fn main_summary_of(
    r: MainCategorySummary,
    m: MainCategory,
    l: Ledger,
    year: u16,
    month: u16,
) -> bool {
    &&& r.id == m.id
    &&& r.name@ == m.name@
    &&& summaries_of(r.sc@, l, m.id, year, month)
}

/// The main category `id` with the monthly summaries of its subcategories.
pub fn get_main_category(ledger: &Ledger, year: u16, month: u16, id: u64) -> (r: Result<
    MainCategorySummary,
    LedgerError,
>)
    requires
        ledger.wf(),
    ensures
        r is Err <==> !has_main(ledger.main_categories@, id),
        r matches Err(e) ==> e == LedgerError::NotFound,
        r matches Ok(s) ==> main_summary_of(
            s,
            main_with_id(ledger.main_categories@, id),
            *ledger,
            year,
            month,
        ),
{
    let mut i: usize = 0;
    while i < ledger.main_categories.len()
        invariant
            i <= ledger.main_categories@.len(),
            forall|j: int| 0 <= j < i ==> #[trigger] ledger.main_categories@[j].id != id,
        ensures
            i < ledger.main_categories@.len() ==> ledger.main_categories@[i as int].id == id,
        decreases ledger.main_categories@.len() - i,
    {
        if ledger.main_categories[i].id == id {
            break;
        }
        i = i + 1;
    }
    if i == ledger.main_categories.len() {
        return Err(LedgerError::NotFound);
    }
    proof {
        let m = ledger.main_categories@;
        let c = choose|j: int| 0 <= j < m.len() && #[trigger] m[j].id == id;
        if c != i {
            assert(main_ids(m)[c] != main_ids(m)[i as int]);
        }
    }
    let m = &ledger.main_categories[i];
    let sc = get_sub_categories(ledger, id, year, month);
    Ok(MainCategorySummary { id, name: m.name.clone(), sc })
}

/// Every main category, in order, with the monthly summaries of its subcategories.
pub fn get_all_main_categories(ledger: &Ledger, year: u16, month: u16) -> (r: Vec<
    MainCategorySummary,
>)
    requires
        ledger.wf(),
    ensures
        r@.len() == ledger.main_categories@.len(),
        forall|i: int|
            0 <= i < r@.len() ==> main_summary_of(
                #[trigger] r@[i],
                ledger.main_categories@[i],
                *ledger,
                year,
                month,
            ),
{
    let mut r: Vec<MainCategorySummary> = Vec::new();
    let mut i: usize = 0;
    while i < ledger.main_categories.len()
        invariant
            i <= ledger.main_categories@.len(),
            ledger.wf(),
            r@.len() == i,
            forall|k: int|
                0 <= k < i ==> main_summary_of(
                    #[trigger] r@[k],
                    ledger.main_categories@[k],
                    *ledger,
                    year,
                    month,
                ),
        decreases ledger.main_categories@.len() - i,
    {
        let m = &ledger.main_categories[i];
        let sc = get_sub_categories(ledger, m.id, year, month);
        r.push(MainCategorySummary { id: m.id, name: m.name.clone(), sc });
        i = i + 1;
    }
    r
}

/// Resolving `name` against the payees `pre` (next identifier `pre_next`) leaves the
/// payees `post` (next identifier `post_next`) and yields `id`: the identifier of the
/// payee already called `name`, or of a new payee of that name added at the end.
pub open spec fn payee_resolved(
    pre: Seq<Payee>,
    pre_next: u64,
    name: Seq<char>,
    post: Seq<Payee>,
    post_next: u64,
    id: u64,
) -> bool {
    if has_payee_named(pre, name) {
        &&& post == pre
        &&& post_next == pre_next
        &&& id == payee_id_named(pre, name)
    } else {
        &&& id == pre_next
        &&& post_next == pre_next + 1
        &&& post.len() == pre.len() + 1
        &&& post.drop_last() == pre
        &&& post.last().id == id
        &&& post.last().name@ == name
        &&& post.last().sub_id is None
        &&& post.last().display is None
    }
}

/// The position of the payee called `name`.
fn find_payee(payees: &Vec<Payee>, name: &String) -> (r: Option<usize>)
    requires
        payee_names_unique(payees@),
    ensures
        r is None <==> !has_payee_named(payees@, name@),
        r matches Some(i) ==> i < payees@.len() && payees@[i as int].name@ == name@
            && payees@[i as int].id == payee_id_named(payees@, name@),
{
    let mut i: usize = 0;
    while i < payees.len()
        invariant
            i <= payees@.len(),
            payee_names_unique(payees@),
            forall|j: int| 0 <= j < i ==> #[trigger] payees@[j].name@ != name@,
        decreases payees@.len() - i,
    {
        if payees[i].name == *name {
            proof {
                assert(payees@[i as int].name@ == name@);
                let c = choose|j: int| 0 <= j < payees@.len() && #[trigger] payees@[j].name@ == name@;
                if c != i {
                    assert(payees@[c].name@ != payees@[i as int].name@);
                }
            }
            return Some(i);
        }
        i = i + 1;
    }
    None
}

/// The identifier of the payee called `name`.
pub fn get_payee_id(ledger: &Ledger, name: &String) -> (r: Result<u64, LedgerError>)
    requires
        ledger.wf(),
    ensures
        r is Ok <==> has_payee_named(ledger.payees@, name@),
        r matches Ok(id) ==> id == payee_id_named(ledger.payees@, name@),
        r matches Err(e) ==> e == LedgerError::NotFound,
{
    match find_payee(&ledger.payees, name) {
        Some(i) => Ok(ledger.payees[i].id),
        None => Err(LedgerError::NotFound),
    }
}

/// The names of all payees, each once, for suggesting a payee while typing.
pub fn get_payee_datalist(ledger: &Ledger) -> (r: Vec<String>)
    requires
        ledger.wf(),
    ensures
        r@.len() == ledger.payees@.len(),
        forall|i: int| 0 <= i < r@.len() ==> #[trigger] r@[i]@ == ledger.payees@[i].name@,
        forall|i: int, j: int| 0 <= i < j < r@.len() ==> r@[i]@ != r@[j]@,
{
    let mut r: Vec<String> = Vec::new();
    let mut i: usize = 0;
    while i < ledger.payees.len()
        invariant
            i <= ledger.payees@.len(),
            r@.len() == i,
            forall|k: int| 0 <= k < i ==> #[trigger] r@[k]@ == ledger.payees@[k].name@,
        decreases ledger.payees@.len() - i,
    {
        r.push(ledger.payees[i].name.clone());
        i = i + 1;
    }
    proof {
        assert forall|a: int, b: int| 0 <= a < b < r@.len() implies r@[a]@ != r@[b]@ by {
            assert(r@[a]@ == ledger.payees@[a].name@);
            assert(r@[b]@ == ledger.payees@[b].name@);
        }
    }
    r
}

/// Pushes a new payee called `name`, who is not yet in the ledger.
fn insert_payee(ledger: &mut Ledger, name: String) -> (id: u64)
    requires
        old(ledger).wf(),
        !has_payee_named(old(ledger).payees@, name@),
        old(ledger).next_payee_id < u64::MAX,
    ensures
        final(ledger).wf(),
        payee_resolved(
            old(ledger).payees@,
            old(ledger).next_payee_id,
            name@,
            final(ledger).payees@,
            final(ledger).next_payee_id,
            id,
        ),
        final(ledger).main_categories == old(ledger).main_categories,
        final(ledger).next_main_id == old(ledger).next_main_id,
        final(ledger).sub_categories == old(ledger).sub_categories,
        final(ledger).next_sub_id == old(ledger).next_sub_id,
        final(ledger).budgets == old(ledger).budgets,
        final(ledger).next_budget_id == old(ledger).next_budget_id,
        final(ledger).transactions == old(ledger).transactions,
        final(ledger).next_transaction_id == old(ledger).next_transaction_id,
{
    let id = ledger.next_payee_id;
    let ghost prev = ledger.payees@;
    let ghost n = name@;
    ledger.payees.push(Payee { id, name, sub_id: None, display: None });
    ledger.next_payee_id = id + 1;
    proof {
        let p = ledger.payees@;
        assert(p.drop_last() =~= prev);
        assert(payee_ids(p) =~= payee_ids(prev).push(id));
        lemma_ids_push(payee_ids(prev), id);
        assert forall|i: int, j: int|
            #![trigger p[i], p[j]]
            0 <= i < p.len() && 0 <= j < p.len() && i != j implies p[i].name@ != p[j].name@ by {
            if i < prev.len() && j < prev.len() {
                assert(prev[i].name@ != prev[j].name@);
            } else if i < prev.len() {
                assert(prev[i].name@ != n);
            } else {
                assert(prev[j].name@ != n);
            }
        }
        let t = ledger.transactions@;
        assert forall|i: int| 0 <= i < t.len() implies has_payee_id(p, #[trigger] t[i].payee_id) by {
            let c = choose|j: int| 0 <= j < prev.len() && #[trigger] prev[j].id == t[i].payee_id;
            assert(p[c].id == t[i].payee_id);
        }
    }
    id
}

/// Looks up the payee called `name`, adding one without a default subcategory where
/// there is none, and returns its identifier. A second call with the same name
/// returns the same identifier and adds nothing.
pub fn resolve_payee(ledger: &mut Ledger, name: String) -> (r: Result<u64, LedgerError>)
    requires
        old(ledger).wf(),
    ensures
        final(ledger).wf(),
        r is Err <==> !has_payee_named(old(ledger).payees@, name@) && old(ledger).next_payee_id
            == u64::MAX,
        r matches Err(e) ==> e == LedgerError::StorageFull && *final(ledger) == *old(ledger),
        r matches Ok(id) ==> {
            &&& payee_resolved(
                old(ledger).payees@,
                old(ledger).next_payee_id,
                name@,
                final(ledger).payees@,
                final(ledger).next_payee_id,
                id,
            )
            &&& final(ledger).main_categories == old(ledger).main_categories
            &&& final(ledger).next_main_id == old(ledger).next_main_id
            &&& final(ledger).sub_categories == old(ledger).sub_categories
            &&& final(ledger).next_sub_id == old(ledger).next_sub_id
            &&& final(ledger).budgets == old(ledger).budgets
            &&& final(ledger).next_budget_id == old(ledger).next_budget_id
            &&& final(ledger).transactions == old(ledger).transactions
            &&& final(ledger).next_transaction_id == old(ledger).next_transaction_id
        },
{
    match find_payee(&ledger.payees, &name) {
        Some(i) => Ok(ledger.payees[i].id),
        None => {
            if ledger.next_payee_id == u64::MAX {
                return Err(LedgerError::StorageFull);
            }
            Ok(insert_payee(ledger, name))
        },
    }
}

/// Records a spend of `amount` (decimal text) on subcategory `subcatid`, dated `date`
/// (`YYYY-MM-DD`), paid to the payee called `payee`, who is added where needed. The
/// account and split fields are always 0. Whether `subcatid` exists is not checked.
/// Returns the new transaction's identifier.
pub fn add_transact(
    ledger: &mut Ledger,
    subcatid: u64,
    payee: String,
    date: &str,
    amount: &str,
) -> (r: Result<u64, LedgerError>)
    requires
        old(ledger).wf(),
    ensures
        final(ledger).wf(),
        r == Err::<u64, LedgerError>(LedgerError::InvalidInput) <==> (date_of(date.spec_bytes()) is None
            || cents_of(amount.spec_bytes()) is None),
        r == Err::<u64, LedgerError>(LedgerError::StorageFull) <==> date_of(date.spec_bytes()) is Some
            && cents_of(amount.spec_bytes()) is Some && (old(ledger).next_transaction_id == u64::MAX
            || (!has_payee_named(old(ledger).payees@, payee@) && old(ledger).next_payee_id
            == u64::MAX)),
        r matches Err(e) ==> e == LedgerError::InvalidInput || e == LedgerError::StorageFull,
        r is Err ==> *final(ledger) == *old(ledger),
        r matches Ok(id) ==> {
            let t = final(ledger).transactions@.last();
            &&& id == old(ledger).next_transaction_id
            &&& final(ledger).next_transaction_id == id + 1
            &&& final(ledger).transactions@.drop_last() == old(ledger).transactions@
            &&& final(ledger).transactions@.len() == old(ledger).transactions@.len() + 1
            &&& t.id == id
            &&& t.account_id == 0
            &&& t.split_id == 0
            &&& t.sub_id == subcatid
            &&& date_of(date.spec_bytes()) == Some(t.date)
            &&& cents_of(amount.spec_bytes()) == Some(t.amount as int)
            &&& t.direction is None
            &&& payee_resolved(
                old(ledger).payees@,
                old(ledger).next_payee_id,
                payee@,
                final(ledger).payees@,
                final(ledger).next_payee_id,
                t.payee_id,
            )
            &&& final(ledger).main_categories == old(ledger).main_categories
            &&& final(ledger).next_main_id == old(ledger).next_main_id
            &&& final(ledger).sub_categories == old(ledger).sub_categories
            &&& final(ledger).next_sub_id == old(ledger).next_sub_id
            &&& final(ledger).budgets == old(ledger).budgets
            &&& final(ledger).next_budget_id == old(ledger).next_budget_id
        },
{
    let d = match parse_date(date) {
        Some(d) => d,
        None => return Err(LedgerError::InvalidInput),
    };
    let a = match parse_amount(amount) {
        Some(a) => a,
        None => return Err(LedgerError::InvalidInput),
    };
    if ledger.next_transaction_id == u64::MAX {
        return Err(LedgerError::StorageFull);
    }
    let payee_id = match find_payee(&ledger.payees, &payee) {
        Some(i) => ledger.payees[i].id,
        None => {
            if ledger.next_payee_id == u64::MAX {
                return Err(LedgerError::StorageFull);
            }
            insert_payee(ledger, payee)
        },
    };
    proof {
        let p = ledger.payees@;
        if has_payee_named(p, payee@) {
            let c = choose|j: int| 0 <= j < p.len() && #[trigger] p[j].name@ == payee@;
            assert(p[c].id == payee_id);
        } else {
            assert(p[p.len() - 1].id == payee_id);
        }
        assert(has_payee_id(p, payee_id));
    }
    let id = ledger.next_transaction_id;
    let ghost t0 = ledger.transactions@;
    ledger.transactions.push(
        Transaction {
            id,
            account_id: 0,
            sub_id: subcatid,
            split_id: 0,
            payee_id,
            date: d,
            amount: a,
            direction: None,
        },
    );
    ledger.next_transaction_id = id + 1;
    proof {
        let t = ledger.transactions@;
        assert(t.drop_last() =~= t0);
        assert(transaction_ids(t) =~= transaction_ids(t0).push(id));
        lemma_ids_push(transaction_ids(t0), id);
        assert forall|i: int| 0 <= i < t.len() implies has_payee_id(
            ledger.payees@,
            #[trigger] t[i].payee_id,
        ) by {
            if i < t0.len() {
                assert(t[i] == t0[i]);
            }
        }
        assert forall|i: int| 0 <= i < t.len() implies (#[trigger] t[i]).date.valid() by {
            if i < t0.len() {
                assert(t[i] == t0[i]);
            }
        }
    }
    Ok(id)
}

/// Sets what is budgeted for subcategory `sub_id` in month `month` of year `year`
/// to `amount` cents: the row for that month is updated where there is one, else a
/// row is added, so that each month of a subcategory has at most one row. Returns
/// the row's identifier.
pub fn set_monthly_budget(
    ledger: &mut Ledger,
    sub_id: u64,
    year: u16,
    month: u16,
    amount: i64,
) -> (r: Result<u64, LedgerError>)
    requires
        old(ledger).wf(),
    ensures
        final(ledger).wf(),
        r is Err <==> !has_budget(old(ledger).budgets@, sub_id, year, month)
            && old(ledger).next_budget_id == u64::MAX,
        r matches Err(e) ==> e == LedgerError::StorageFull && *final(ledger) == *old(ledger),
        r matches Ok(id) ==> {
            let b = old(ledger).budgets@;
            let k = budget_index(b, sub_id, year, month);
            &&& has_budget(b, sub_id, year, month) ==> id == b[k].id && final(ledger).budgets@
                == b.update(k, MonthlyBudget { amount, ..b[k] })
                && final(ledger).next_budget_id == old(ledger).next_budget_id
            &&& !has_budget(b, sub_id, year, month) ==> id == old(ledger).next_budget_id
                && final(ledger).budgets@ == b.push(
                MonthlyBudget { id, sub_id, year, month, amount },
            ) && final(ledger).next_budget_id == id + 1
            &&& budgeted_of(final(ledger).budgets@, sub_id, year, month) == amount
            &&& final(ledger).main_categories == old(ledger).main_categories
            &&& final(ledger).next_main_id == old(ledger).next_main_id
            &&& final(ledger).sub_categories == old(ledger).sub_categories
            &&& final(ledger).next_sub_id == old(ledger).next_sub_id
            &&& final(ledger).payees == old(ledger).payees
            &&& final(ledger).next_payee_id == old(ledger).next_payee_id
            &&& final(ledger).transactions == old(ledger).transactions
            &&& final(ledger).next_transaction_id == old(ledger).next_transaction_id
        },
{
    let ghost b0 = ledger.budgets@;
    let mut i: usize = 0;
    while i < ledger.budgets.len()
        invariant
            i <= ledger.budgets@.len(),
            forall|j: int| 0 <= j < i ==> !budget_key_is(#[trigger] ledger.budgets@[j], sub_id, year, month),
        ensures
            i < ledger.budgets@.len() ==> budget_key_is(ledger.budgets@[i as int], sub_id, year, month),
        decreases ledger.budgets@.len() - i,
    {
        let b = ledger.budgets[i];
        if b.sub_id == sub_id && b.year == year && b.month == month {
            break;
        }
        i = i + 1;
    }
    if i < ledger.budgets.len() {
        let old_row = ledger.budgets[i];
        proof {
            let c = budget_index(b0, sub_id, year, month);
            if c != i {
                assert(!budget_key_is(b0[c], old_row.sub_id, old_row.year, old_row.month));
            }
        }
        ledger.budgets[i] = MonthlyBudget { amount, ..old_row };
        proof {
            let b = ledger.budgets@;
            assert(budget_ids(b) =~= budget_ids(b0));
            assert forall|x: int, y: int|
                #![trigger b[x], b[y]]
                0 <= x < b.len() && 0 <= y < b.len() && x != y implies !budget_key_is(
                b[x],
                b[y].sub_id,
                b[y].year,
                b[y].month,
            ) by {
                assert(!budget_key_is(b0[x], b0[y].sub_id, b0[y].year, b0[y].month));
            }
            assert(budget_key_is(b[i as int], sub_id, year, month));
            let c = budget_index(b, sub_id, year, month);
            if c != i {
                assert(!budget_key_is(b[c], b[i as int].sub_id, b[i as int].year, b[i as int].month));
            }
        }
        return Ok(old_row.id);
    }
    let id = ledger.next_budget_id;
    if id == u64::MAX {
        return Err(LedgerError::StorageFull);
    }
    ledger.budgets.push(MonthlyBudget { id, sub_id, year, month, amount });
    ledger.next_budget_id = id + 1;
    proof {
        let b = ledger.budgets@;
        assert(budget_ids(b) =~= budget_ids(b0).push(id));
        lemma_ids_push(budget_ids(b0), id);
        assert forall|x: int, y: int|
            #![trigger b[x], b[y]]
            0 <= x < b.len() && 0 <= y < b.len() && x != y implies !budget_key_is(
            b[x],
            b[y].sub_id,
            b[y].year,
            b[y].month,
        ) by {
            if x < b0.len() && y < b0.len() {
                assert(!budget_key_is(b0[x], b0[y].sub_id, b0[y].year, b0[y].month));
            }
        }
        let last = b.len() - 1;
        assert(budget_key_is(b[last], sub_id, year, month));
        let c = budget_index(b, sub_id, year, month);
        if c != last {
            assert(!budget_key_is(b[c], b[last].sub_id, b[last].year, b[last].month));
        }
    }
    Ok(id)
}

} // verus!
