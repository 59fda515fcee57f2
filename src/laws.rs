//! Properties that relate the ledger's operations, proved over their contracts.
use vstd::prelude::*;
use crate::data::{
    budgeted_of, counts_for, has_budget, payee_resolved, spent_of, subs_of, summaries_of,
    without_sub,
};
use crate::ledger::{has_payee_named, payee_id_named, payee_names_unique, Ledger};
use crate::model::{MonthlyBudget, Payee, SubCategory, SubCategorySummary, Transaction};

verus! {

/// A subcategory without transactions in a month has spent nothing in it.
pub proof fn lemma_no_transactions_nothing_spent(
    txs: Seq<Transaction>,
    sub_id: u64,
    year: u16,
    month: u16,
)
    requires
        forall|i: int| 0 <= i < txs.len() ==> !counts_for(#[trigger] txs[i], sub_id, year, month),
    ensures
        spent_of(txs, sub_id, year, month) == 0,
    decreases txs.len(),
{
    if txs.len() > 0 {
        let t = txs.drop_last();
        assert(forall|i: int| 0 <= i < t.len() ==> t[i] == txs[i]);
        lemma_no_transactions_nothing_spent(t, sub_id, year, month);
        assert(!counts_for(txs[txs.len() - 1], sub_id, year, month));
    }
}

/// A subcategory without a budget row for a month has nothing budgeted in it.
pub proof fn lemma_no_budget_row_nothing_budgeted(
    budgets: Seq<MonthlyBudget>,
    sub_id: u64,
    year: u16,
    month: u16,
)
    requires
        !has_budget(budgets, sub_id, year, month),
    ensures
        budgeted_of(budgets, sub_id, year, month) == 0,
{
}

/// Resolving the same payee name twice gives the same identifier both times; the
/// second call changes nothing, and together they add at most one payee.
pub proof fn lemma_resolve_payee_idempotent(
    before: Seq<Payee>,
    before_next: u64,
    name: Seq<char>,
    mid: Seq<Payee>,
    mid_next: u64,
    id1: u64,
    after: Seq<Payee>,
    after_next: u64,
    id2: u64,
)
    requires
        payee_names_unique(before),
        payee_resolved(before, before_next, name, mid, mid_next, id1),
        payee_resolved(mid, mid_next, name, after, after_next, id2),
    ensures
        id2 == id1,
        after == mid,
        after_next == mid_next,
        after.len() <= before.len() + 1,
{
    if !has_payee_named(before, name) {
        let last = mid.len() - 1;
        assert(mid[last].name@ == name);
        assert(has_payee_named(mid, name));
        assert forall|j: int| 0 <= j < mid.len() && #[trigger] mid[j].name@ == name implies j
            == last by {
            if j != last {
                assert(mid.drop_last()[j] == mid[j]);
                assert(before[j].name@ == name);
            }
        }
        assert(payee_id_named(mid, name) == mid[last].id);
    }
}

/// Deleting a subcategory and then listing a main category's subcategories is
/// listing them and then leaving out the deleted one.
pub proof fn lemma_delete_then_list(s: Seq<SubCategory>, id: u64, main_id: u64)
    ensures
        subs_of(without_sub(s, id), main_id) == without_sub(subs_of(s, main_id), id),
    decreases s.len(),
{
    if s.len() > 0 {
        let t = s.drop_last();
        let x = s.last();
        lemma_delete_then_list(t, id, main_id);
        let wt = without_sub(t, id);
        let st = subs_of(t, main_id);
        assert(wt.push(x).drop_last() =~= wt);
        assert(st.push(x).drop_last() =~= st);
        if x.main_id == main_id {
            assert(subs_of(s, main_id) == st.push(x));
        }
        if x.id != id {
            assert(without_sub(s, id) == wt.push(x));
            assert(subs_of(wt.push(x), main_id) == if x.main_id == main_id {
                subs_of(wt, main_id).push(x)
            } else {
                subs_of(wt, main_id)
            });
        }
    }
}

/// No subcategory with identifier `id` is left once it is deleted.
pub proof fn lemma_deleted_sub_absent(s: Seq<SubCategory>, id: u64)
    ensures
        forall|k: int| 0 <= k < without_sub(s, id).len() ==> #[trigger] without_sub(s, id)[k].id != id,
    decreases s.len(),
{
    if s.len() > 0 {
        lemma_deleted_sub_absent(s.drop_last(), id);
    }
}

/// After subcategory `id` is deleted, the monthly summaries of a main category's
/// subcategories hold none for `id`, while the transactions stay as they were and
/// still name `id`.
pub proof fn lemma_deleted_sub_not_listed(
    pre: Ledger,
    post: Ledger,
    id: u64,
    main_id: u64,
    year: u16,
    month: u16,
    r: Seq<SubCategorySummary>,
)
    requires
        post.sub_categories@ == without_sub(pre.sub_categories@, id),
        post.transactions == pre.transactions,
        summaries_of(r, post, main_id, year, month),
    ensures
        forall|k: int| 0 <= k < r.len() ==> #[trigger] r[k].id != id,
        post.transactions@ == pre.transactions@,
{
    let l = subs_of(pre.sub_categories@, main_id);
    lemma_delete_then_list(pre.sub_categories@, id, main_id);
    lemma_deleted_sub_absent(l, id);
    assert forall|k: int| 0 <= k < r.len() implies #[trigger] r[k].id != id by {
        assert(r[k].id == without_sub(l, id)[k].id);
    }
}

} // verus!
