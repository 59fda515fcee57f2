//! The ledger's tables and the invariants that every operation keeps.
use vstd::prelude::*;
use crate::model::{days_in_month_exec, MainCategory, MonthlyBudget, Payee, SubCategory, Transaction};

verus! {

/// All rows of the ledger. Each table hands out identifiers in increasing order,
/// starting at 1, and keeps its rows in that order.
pub struct Ledger {
    pub main_categories: Vec<MainCategory>,
    pub sub_categories: Vec<SubCategory>,
    pub budgets: Vec<MonthlyBudget>,
    pub payees: Vec<Payee>,
    pub transactions: Vec<Transaction>,
    pub next_main_id: u64,
    pub next_sub_id: u64,
    pub next_budget_id: u64,
    pub next_payee_id: u64,
    pub next_transaction_id: u64,
}

/// The ids are strictly increasing and all below `next`.
pub open spec fn ids_ordered(ids: Seq<u64>, next: u64) -> bool {
    &&& forall|i: int, j: int| 0 <= i < j < ids.len() ==> ids[i] < ids[j]
    &&& forall|i: int| 0 <= i < ids.len() ==> ids[i] < next
}

pub open spec fn main_ids(s: Seq<MainCategory>) -> Seq<u64> {
    Seq::new(s.len(), |i: int| s[i].id)
}

pub open spec fn sub_ids(s: Seq<SubCategory>) -> Seq<u64> {
    Seq::new(s.len(), |i: int| s[i].id)
}

pub open spec fn budget_ids(s: Seq<MonthlyBudget>) -> Seq<u64> {
    Seq::new(s.len(), |i: int| s[i].id)
}

pub open spec fn payee_ids(s: Seq<Payee>) -> Seq<u64> {
    Seq::new(s.len(), |i: int| s[i].id)
}

pub open spec fn transaction_ids(s: Seq<Transaction>) -> Seq<u64> {
    Seq::new(s.len(), |i: int| s[i].id)
}

pub open spec fn has_main(mains: Seq<MainCategory>, id: u64) -> bool {
    exists|j: int| 0 <= j < mains.len() && #[trigger] mains[j].id == id
}

/// The main category with identifier `id`, where there is one.
pub open spec fn main_with_id(mains: Seq<MainCategory>, id: u64) -> MainCategory {
    mains[choose|j: int| 0 <= j < mains.len() && #[trigger] mains[j].id == id]
}

pub open spec fn has_payee_id(payees: Seq<Payee>, id: u64) -> bool {
    exists|j: int| 0 <= j < payees.len() && #[trigger] payees[j].id == id
}

pub open spec fn has_payee_named(payees: Seq<Payee>, name: Seq<char>) -> bool {
    exists|j: int| 0 <= j < payees.len() && #[trigger] payees[j].name@ == name
}

/// The identifier of the payee called `name`, where there is one.
pub open spec fn payee_id_named(payees: Seq<Payee>, name: Seq<char>) -> u64 {
    payees[choose|j: int| 0 <= j < payees.len() && #[trigger] payees[j].name@ == name].id
}

pub open spec fn budget_key_is(b: MonthlyBudget, sub_id: u64, year: u16, month: u16) -> bool {
    b.sub_id == sub_id && b.year == year && b.month == month
}

pub open spec fn payee_names_unique(payees: Seq<Payee>) -> bool {
    forall|i: int, j: int|
        #![trigger payees[i], payees[j]]
        0 <= i < payees.len() && 0 <= j < payees.len() && i != j ==> payees[i].name@
            != payees[j].name@
}

pub open spec fn budget_keys_unique(budgets: Seq<MonthlyBudget>) -> bool {
    forall|i: int, j: int|
        #![trigger budgets[i], budgets[j]]
        0 <= i < budgets.len() && 0 <= j < budgets.len() && i != j ==> !budget_key_is(
            budgets[i],
            budgets[j].sub_id,
            budgets[j].year,
            budgets[j].month,
        )
}

pub open spec fn parents_exist(mains: Seq<MainCategory>, subs: Seq<SubCategory>) -> bool {
    forall|i: int| 0 <= i < subs.len() ==> has_main(mains, #[trigger] subs[i].main_id)
}

pub open spec fn dates_valid(txs: Seq<Transaction>) -> bool {
    forall|i: int| 0 <= i < txs.len() ==> (#[trigger] txs[i]).date.valid()
}

pub open spec fn payees_exist(payees: Seq<Payee>, txs: Seq<Transaction>) -> bool {
    forall|i: int| 0 <= i < txs.len() ==> has_payee_id(payees, #[trigger] txs[i].payee_id)
}

pub proof fn lemma_ids_push(ids: Seq<u64>, next: u64)
    requires
        ids_ordered(ids, next),
        next < u64::MAX,
    ensures
        ids_ordered(ids.push(next), (next + 1) as u64),
{
}

pub proof fn lemma_ids_remove(ids: Seq<u64>, next: u64, k: int)
    requires
        ids_ordered(ids, next),
        0 <= k < ids.len(),
    ensures
        ids_ordered(ids.remove(k), next),
{
    let r = ids.remove(k);
    assert forall|i: int, j: int| 0 <= i < j < r.len() implies r[i] < r[j] by {
        let a = if i < k { i } else { i + 1 };
        let b = if j < k { j } else { j + 1 };
        assert(r[i] == ids[a] && r[j] == ids[b]);
    }
    assert forall|i: int| 0 <= i < r.len() implies r[i] < next by {
        let a = if i < k { i } else { i + 1 };
        assert(r[i] == ids[a]);
    }
}

impl Ledger {
    /// The ledger's invariant: identifiers are unique and ordered, every subcategory
    /// has its main category, payee names are unique, at most one budget row exists per
    /// (subcategory, year, month), and every transaction names an existing payee and is
    /// dated on a calendar date.
    pub open spec fn wf(&self) -> bool {
        &&& ids_ordered(main_ids(self.main_categories@), self.next_main_id)
        &&& ids_ordered(sub_ids(self.sub_categories@), self.next_sub_id)
        &&& ids_ordered(budget_ids(self.budgets@), self.next_budget_id)
        &&& ids_ordered(payee_ids(self.payees@), self.next_payee_id)
        &&& ids_ordered(transaction_ids(self.transactions@), self.next_transaction_id)
        &&& parents_exist(self.main_categories@, self.sub_categories@)
        &&& payee_names_unique(self.payees@)
        &&& budget_keys_unique(self.budgets@)
        &&& payees_exist(self.payees@, self.transactions@)
        &&& dates_valid(self.transactions@)
    }

    /// An empty ledger.
    pub fn new() -> (r: Ledger)
        ensures
            r.wf(),
            r.main_categories@.len() == 0,
            r.sub_categories@.len() == 0,
            r.budgets@.len() == 0,
            r.payees@.len() == 0,
            r.transactions@.len() == 0,
            r.next_main_id == 1,
            r.next_sub_id == 1,
            r.next_budget_id == 1,
            r.next_payee_id == 1,
            r.next_transaction_id == 1,
    {
        Ledger {
            main_categories: Vec::new(),
            sub_categories: Vec::new(),
            budgets: Vec::new(),
            payees: Vec::new(),
            transactions: Vec::new(),
            next_main_id: 1,
            next_sub_id: 1,
            next_budget_id: 1,
            next_payee_id: 1,
            next_transaction_id: 1,
        }
    }
}

/// Whether `ids` is strictly increasing and below `next`.
fn check_ids_ordered(ids: &Vec<u64>, next: u64) -> (r: bool)
    ensures
        r == ids_ordered(ids@, next),
{
    let mut i: usize = 0;
    while i < ids.len()
        invariant
            i <= ids@.len(),
            forall|a: int, b: int| 0 <= a < b < i ==> ids@[a] < ids@[b],
            forall|a: int| 0 <= a < i ==> ids@[a] < next,
        decreases ids@.len() - i,
    {
        if ids[i] >= next {
            return false;
        }
        if i > 0 && ids[i - 1] >= ids[i] {
            return false;
        }
        i = i + 1;
    }
    true
}

fn collect_main_ids(s: &Vec<MainCategory>) -> (r: Vec<u64>)
    ensures
        r@ == main_ids(s@),
{
    let mut r: Vec<u64> = Vec::new();
    let mut i: usize = 0;
    while i < s.len()
        invariant
            i <= s@.len(),
            r@.len() == i,
            forall|k: int| 0 <= k < i ==> r@[k] == s@[k].id,
        decreases s@.len() - i,
    {
        r.push(s[i].id);
        i = i + 1;
    }
    assert(r@ =~= main_ids(s@));
    r
}

fn collect_sub_ids(s: &Vec<SubCategory>) -> (r: Vec<u64>)
    ensures
        r@ == sub_ids(s@),
{
    let mut r: Vec<u64> = Vec::new();
    let mut i: usize = 0;
    while i < s.len()
        invariant
            i <= s@.len(),
            r@.len() == i,
            forall|k: int| 0 <= k < i ==> r@[k] == s@[k].id,
        decreases s@.len() - i,
    {
        r.push(s[i].id);
        i = i + 1;
    }
    assert(r@ =~= sub_ids(s@));
    r
}

fn collect_budget_ids(s: &Vec<MonthlyBudget>) -> (r: Vec<u64>)
    ensures
        r@ == budget_ids(s@),
{
    let mut r: Vec<u64> = Vec::new();
    let mut i: usize = 0;
    while i < s.len()
        invariant
            i <= s@.len(),
            r@.len() == i,
            forall|k: int| 0 <= k < i ==> r@[k] == s@[k].id,
        decreases s@.len() - i,
    {
        r.push(s[i].id);
        i = i + 1;
    }
    assert(r@ =~= budget_ids(s@));
    r
}

fn collect_payee_ids(s: &Vec<Payee>) -> (r: Vec<u64>)
    ensures
        r@ == payee_ids(s@),
{
    let mut r: Vec<u64> = Vec::new();
    let mut i: usize = 0;
    while i < s.len()
        invariant
            i <= s@.len(),
            r@.len() == i,
            forall|k: int| 0 <= k < i ==> r@[k] == s@[k].id,
        decreases s@.len() - i,
    {
        r.push(s[i].id);
        i = i + 1;
    }
    assert(r@ =~= payee_ids(s@));
    r
}

fn collect_transaction_ids(s: &Vec<Transaction>) -> (r: Vec<u64>)
    ensures
        r@ == transaction_ids(s@),
{
    let mut r: Vec<u64> = Vec::new();
    let mut i: usize = 0;
    while i < s.len()
        invariant
            i <= s@.len(),
            r@.len() == i,
            forall|k: int| 0 <= k < i ==> r@[k] == s@[k].id,
        decreases s@.len() - i,
    {
        r.push(s[i].id);
        i = i + 1;
    }
    assert(r@ =~= transaction_ids(s@));
    r
}

/// Whether some main category has identifier `id`.
fn check_has_main(mains: &Vec<MainCategory>, id: u64) -> (r: bool)
    ensures
        r == has_main(mains@, id),
{
    let mut i: usize = 0;
    while i < mains.len()
        invariant
            i <= mains@.len(),
            forall|j: int| 0 <= j < i ==> #[trigger] mains@[j].id != id,
        decreases mains@.len() - i,
    {
        if mains[i].id == id {
            return true;
        }
        i = i + 1;
    }
    false
}

/// Whether some payee has identifier `id`.
fn check_has_payee_id(payees: &Vec<Payee>, id: u64) -> (r: bool)
    ensures
        r == has_payee_id(payees@, id),
{
    let mut i: usize = 0;
    while i < payees.len()
        invariant
            i <= payees@.len(),
            forall|j: int| 0 <= j < i ==> #[trigger] payees@[j].id != id,
        decreases payees@.len() - i,
    {
        if payees[i].id == id {
            return true;
        }
        i = i + 1;
    }
    false
}

fn check_parents_exist(mains: &Vec<MainCategory>, subs: &Vec<SubCategory>) -> (r: bool)
    ensures
        r == parents_exist(mains@, subs@),
{
    let mut i: usize = 0;
    while i < subs.len()
        invariant
            i <= subs@.len(),
            forall|j: int| 0 <= j < i ==> has_main(mains@, #[trigger] subs@[j].main_id),
        decreases subs@.len() - i,
    {
        if !check_has_main(mains, subs[i].main_id) {
            return false;
        }
        i = i + 1;
    }
    true
}

fn check_payees_exist(payees: &Vec<Payee>, txs: &Vec<Transaction>) -> (r: bool)
    ensures
        r == payees_exist(payees@, txs@),
{
    let mut i: usize = 0;
    while i < txs.len()
        invariant
            i <= txs@.len(),
            forall|j: int| 0 <= j < i ==> has_payee_id(payees@, #[trigger] txs@[j].payee_id),
        decreases txs@.len() - i,
    {
        if !check_has_payee_id(payees, txs[i].payee_id) {
            return false;
        }
        i = i + 1;
    }
    true
}

fn check_dates_valid(txs: &Vec<Transaction>) -> (r: bool)
    ensures
        r == dates_valid(txs@),
{
    let mut i: usize = 0;
    while i < txs.len()
        invariant
            i <= txs@.len(),
            forall|j: int| 0 <= j < i ==> (#[trigger] txs@[j]).date.valid(),
        decreases txs@.len() - i,
    {
        let d = txs[i].date;
        if d.month < 1 || d.month > 12 || d.day < 1 || d.day > days_in_month_exec(d.year, d.month) {
            return false;
        }
        i = i + 1;
    }
    true
}

fn check_payee_names_unique(payees: &Vec<Payee>) -> (r: bool)
    ensures
        r == payee_names_unique(payees@),
{
    let ghost p = payees@;
    let mut i: usize = 0;
    while i < payees.len()
        invariant
            i <= p.len(),
            p == payees@,
            forall|a: int, b: int|
                #![trigger p[a], p[b]]
                0 <= a < i && 0 <= b < i && a != b ==> p[a].name@ != p[b].name@,
        decreases p.len() - i,
    {
        let mut j: usize = 0;
        while j < i
            invariant
                j <= i < p.len(),
                p == payees@,
                forall|a: int, b: int|
                    #![trigger p[a], p[b]]
                    0 <= a < i && 0 <= b < i && a != b ==> p[a].name@ != p[b].name@,
                forall|b: int| 0 <= b < j ==> p[i as int].name@ != #[trigger] p[b].name@,
            decreases i - j,
        {
            if payees[j].name == payees[i].name {
                assert(p[j as int].name@ == p[i as int].name@);
                return false;
            }
            j = j + 1;
        }
        i = i + 1;
    }
    true
}

fn check_budget_keys_unique(budgets: &Vec<MonthlyBudget>) -> (r: bool)
    ensures
        r == budget_keys_unique(budgets@),
{
    let ghost p = budgets@;
    let mut i: usize = 0;
    while i < budgets.len()
        invariant
            i <= p.len(),
            p == budgets@,
            forall|a: int, b: int|
                #![trigger p[a], p[b]]
                0 <= a < i && 0 <= b < i && a != b ==> !budget_key_is(
                    p[a],
                    p[b].sub_id,
                    p[b].year,
                    p[b].month,
                ),
        decreases p.len() - i,
    {
        let mut j: usize = 0;
        let x = budgets[i];
        while j < i
            invariant
                j <= i < p.len(),
                p == budgets@,
                x == p[i as int],
                forall|a: int, b: int|
                    #![trigger p[a], p[b]]
                    0 <= a < i && 0 <= b < i && a != b ==> !budget_key_is(
                        p[a],
                        p[b].sub_id,
                        p[b].year,
                        p[b].month,
                    ),
                forall|b: int| 0 <= b < j ==> !budget_key_is(#[trigger] p[b], x.sub_id, x.year, x.month),
            decreases i - j,
        {
            let y = budgets[j];
            if y.sub_id == x.sub_id && y.year == x.year && y.month == x.month {
                assert(budget_key_is(p[j as int], p[i as int].sub_id, p[i as int].year, p[i as int].month));
                return false;
            }
            j = j + 1;
        }
        i = i + 1;
    }
    true
}

impl Ledger {
    /// Whether the ledger keeps its invariant; a ledger rebuilt from stored rows is
    /// tested with this before any operation is run on it.
    pub fn is_well_formed(&self) -> (r: bool)
        ensures
            r == self.wf(),
    {
        check_ids_ordered(&collect_main_ids(&self.main_categories), self.next_main_id)
            && check_ids_ordered(&collect_sub_ids(&self.sub_categories), self.next_sub_id)
            && check_ids_ordered(&collect_budget_ids(&self.budgets), self.next_budget_id)
            && check_ids_ordered(&collect_payee_ids(&self.payees), self.next_payee_id)
            && check_ids_ordered(
            &collect_transaction_ids(&self.transactions),
            self.next_transaction_id,
        ) && check_parents_exist(&self.main_categories, &self.sub_categories)
            && check_payee_names_unique(&self.payees) && check_budget_keys_unique(&self.budgets)
            && check_payees_exist(&self.payees, &self.transactions)
            && check_dates_valid(&self.transactions)
    }
}

} // verus!
