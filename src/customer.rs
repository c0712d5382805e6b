//! Customer search with per-customer invoice aggregates, and the customer count.
use vstd::prelude::*;
use crate::filter::{lemma_empty_term_matches_customer, customer_matches, customer_matches_term, invoice_matches, invoice_matches_term, SearchTerm};
use crate::model::{invoices_wf, Customer, Invoice};
use crate::order::{lemma_text_lt_irreflexive, lemma_text_lt_transitive, text_less, text_lt};
use crate::text::chars_of;

verus! {

/// A customer search result with its invoice aggregates.
#[derive(Clone, Debug)]
pub struct CustomerResponse {
    pub id: u128,
    pub name: String,
    pub email: String,
    pub image_url: Option<String>,
    pub total_invoices: i64,
    pub total_pending: Option<i64>,
    pub total_paid: Option<i64>,
}

/// The status text of an invoice awaiting payment.
pub open spec fn pending_status() -> Seq<char> {
    seq!['p', 'e', 'n', 'd', 'i', 'n', 'g']
}

/// The status text of a settled invoice.
pub open spec fn paid_status() -> Seq<char> {
    seq!['p', 'a', 'i', 'd']
}

/// How many invoices of `invs` belong to customer `id`.
pub open spec fn invoice_count(invs: Seq<Invoice>, id: u128) -> nat
    decreases invs.len(),
{
    if invs.len() == 0 {
        0
    } else {
        invoice_count(invs.drop_last(), id) + if invs.last().customer_id == id {
            1nat
        } else {
            0nat
        }
    }
}

/// The sum of the amounts of customer `id`'s invoices with the given status.
pub open spec fn status_sum(invs: Seq<Invoice>, id: u128, status: Seq<char>) -> int
    decreases invs.len(),
{
    if invs.len() == 0 {
        0
    } else {
        status_sum(invs.drop_last(), id, status) + if invs.last().customer_id == id
            && invs.last().status@ == status {
            invs.last().amount as int
        } else {
            0
        }
    }
}

/// Customer `id` has at least one invoice with the given status.
pub open spec fn has_status(invs: Seq<Invoice>, id: u128, status: Seq<char>) -> bool {
    exists|k: int|
        0 <= k < invs.len() && (#[trigger] invs[k]).customer_id == id && invs[k].status@ == status
}

/// The status total as the grouped query yields it: absent with no contributing invoice.
pub open spec fn status_total(invs: Seq<Invoice>, id: u128, status: Seq<char>) -> Option<i64> {
    if has_status(invs, id, status) {
        Some(status_sum(invs, id, status) as i64)
    } else {
        None
    }
}

/// The search result for customer `c`.
pub open spec fn summary_of(c: Customer, invs: Seq<Invoice>) -> CustomerResponse {
    CustomerResponse {
        id: c.id,
        name: c.name,
        email: c.email,
        image_url: c.image_url,
        total_invoices: invoice_count(invs, c.id) as i64,
        total_pending: status_total(invs, c.id, pending_status()),
        total_paid: status_total(invs, c.id, paid_status()),
    }
}

/// The number of rows that keeps every total within `i64`.
pub open spec fn rows_fit(invs: Seq<Invoice>) -> bool {
    invs.len() <= u32::MAX
}

proof fn lemma_sum_bound(invs: Seq<Invoice>, id: u128, status: Seq<char>)
    ensures
        -(invs.len() * 0x8000_0000) <= status_sum(invs, id, status) <= invs.len() * 0x8000_0000,
        invoice_count(invs, id) <= invs.len(),
    decreases invs.len(),
{
    if invs.len() > 0 {
        lemma_sum_bound(invs.drop_last(), id, status);
    }
}

/// Builds the search result for one customer: the number of its invoices and,
/// for "pending" and "paid", the sum of the amounts, absent when it has none.
pub fn summarize(c: &Customer, invoices: &Vec<Invoice>) -> (r: CustomerResponse)
    requires
        rows_fit(invoices@),
    ensures
        r == summary_of(*c, invoices@),
{
    let pending = "pending".to_owned();
    let paid = "paid".to_owned();
    proof {
        reveal_strlit("pending");
        reveal_strlit("paid");
        assert(pending@ =~= pending_status());
        assert(paid@ =~= paid_status());
    }
    let n = invoices.len();
    let mut count: i64 = 0;
    let mut pending_sum: i64 = 0;
    let mut paid_sum: i64 = 0;
    let mut any_pending = false;
    let mut any_paid = false;
    let mut i: usize = 0;
    while i < n
        invariant
            n == invoices@.len(),
            n <= u32::MAX,
            i <= n,
            pending@ == pending_status(),
            paid@ == paid_status(),
            count == invoice_count(invoices@.subrange(0, i as int), c.id),
            pending_sum == status_sum(invoices@.subrange(0, i as int), c.id, pending_status()),
            paid_sum == status_sum(invoices@.subrange(0, i as int), c.id, paid_status()),
            any_pending == has_status(invoices@.subrange(0, i as int), c.id, pending_status()),
            any_paid == has_status(invoices@.subrange(0, i as int), c.id, paid_status()),
        decreases n - i,
    {
        let ghost pre = invoices@.subrange(0, i as int);
        let ghost next = invoices@.subrange(0, i + 1);
        assert(next.drop_last() =~= pre);
        proof {
            lemma_sum_bound(next, c.id, pending_status());
            lemma_sum_bound(next, c.id, paid_status());
            assert(forall|k: int| 0 <= k < pre.len() ==> pre[k] == #[trigger] next[k]);
        }
        let inv = &invoices[i];
        if inv.customer_id == c.id {
            count = count + 1;
            if inv.status == pending {
                pending_sum = pending_sum + inv.amount as i64;
                any_pending = true;
            }
            if inv.status == paid {
                paid_sum = paid_sum + inv.amount as i64;
                any_paid = true;
            }
        }
        proof {
            if inv.customer_id == c.id && inv.status@ == pending_status() {
                assert(next[i as int] == *inv);
            }
            if inv.customer_id == c.id && inv.status@ == paid_status() {
                assert(next[i as int] == *inv);
            }
        }
        i = i + 1;
    }
    assert(invoices@.subrange(0, n as int) =~= invoices@);
    CustomerResponse {
        id: c.id,
        name: c.name.clone(),
        email: c.email.clone(),
        image_url: match &c.image_url {
            Some(u) => Some(u.clone()),
            None => None,
        },
        total_invoices: count,
        total_pending: if any_pending { Some(pending_sum) } else { None },
        total_paid: if any_paid { Some(paid_sum) } else { None },
    }
}

/// A customer appears in a search when its name or email matches the term, or
/// the amount or date of one of its invoices does.
pub open spec fn customer_selected(c: Customer, invs: Seq<Invoice>, term: Seq<char>) -> bool {
    customer_matches(c, term) || exists|k: int|
        0 <= k < invs.len() && (#[trigger] invs[k]).customer_id == c.id && invoice_matches(
            invs[k],
            term,
        )
}

/// The results for the selected customers, in the customers' stored order.
pub open spec fn selected_summaries(cs: Seq<Customer>, invs: Seq<Invoice>, term: Seq<char>) -> Seq<
    CustomerResponse,
>
    decreases cs.len(),
{
    if cs.len() == 0 {
        Seq::empty()
    } else {
        let rest = selected_summaries(cs.drop_last(), invs, term);
        if customer_selected(cs.last(), invs, term) {
            rest.push(summary_of(cs.last(), invs))
        } else {
            rest
        }
    }
}

/// Where a stable insertion by name places an element named `name`: after
/// every leading element whose name does not sort after it.
pub open spec fn name_slot(s: Seq<CustomerResponse>, name: Seq<char>) -> nat
    decreases s.len(),
{
    if s.len() == 0 {
        0
    } else if text_lt(name, s[0].name@) {
        0
    } else {
        1 + name_slot(s.drop_first(), name)
    }
}

/// `s` ordered by name ascending; equal names keep their relative order.
pub open spec fn sort_by_name(s: Seq<CustomerResponse>) -> Seq<CustomerResponse>
    decreases s.len(),
{
    if s.len() == 0 {
        Seq::empty()
    } else {
        let sorted = sort_by_name(s.drop_last());
        sorted.insert(name_slot(sorted, s.last().name@) as int, s.last())
    }
}

/// The customer search: every selected customer with its aggregates, by name.
pub open spec fn customer_search(cs: Seq<Customer>, invs: Seq<Invoice>, term: Seq<char>) -> Seq<
    CustomerResponse,
> {
    sort_by_name(selected_summaries(cs, invs, term))
}

proof fn lemma_name_slot_bound(s: Seq<CustomerResponse>, name: Seq<char>)
    ensures
        name_slot(s, name) <= s.len(),
    decreases s.len(),
{
    if s.len() > 0 {
        lemma_name_slot_bound(s.drop_first(), name);
    }
}

proof fn lemma_sort_len(s: Seq<CustomerResponse>)
    ensures
        sort_by_name(s).len() == s.len(),
    decreases s.len(),
{
    if s.len() > 0 {
        lemma_sort_len(s.drop_last());
        lemma_name_slot_bound(sort_by_name(s.drop_last()), s.last().name@);
    }
}

/// Inserts `x` into `out` at its stable position by name.
fn insert_by_name(out: &mut Vec<CustomerResponse>, x: CustomerResponse)
    ensures
        name_slot(old(out)@, x.name@) <= old(out)@.len(),
        final(out)@ == old(out)@.insert(name_slot(old(out)@, x.name@) as int, x),
{
    let key = chars_of(x.name.as_str());
    let n = out.len();
    let mut j: usize = 0;
    proof {
        lemma_name_slot_bound(out@, x.name@);
        assert(out@.skip(0) =~= out@);
    }
    while j < n && !text_less(&key, &chars_of(out[j].name.as_str()))
        invariant
            n == out@.len(),
            j <= n,
            key@ == x.name@,
            name_slot(out@, x.name@) == j + name_slot(out@.skip(j as int), x.name@),
        decreases n - j,
    {
        assert(out@.skip(j as int).drop_first() =~= out@.skip(j + 1));
        j = j + 1;
    }
    out.insert(j, x);
}

/// Whether one of customer `c`'s invoices matches the term by amount or date.
fn has_matching_invoice(c: &Customer, invoices: &Vec<Invoice>, term: &SearchTerm) -> (r: bool)
    requires
        invoices_wf(invoices@),
    ensures
        r == exists|k: int|
            0 <= k < invoices@.len() && (#[trigger] invoices@[k]).customer_id == c.id
                && invoice_matches(invoices@[k], term.raw@),
{
    let n = invoices.len();
    let mut i: usize = 0;
    while i < n
        invariant
            n == invoices@.len(),
            i <= n,
            invoices_wf(invoices@),
            forall|k: int|
                0 <= k < i ==> !((#[trigger] invoices@[k]).customer_id == c.id
                    && invoice_matches(invoices@[k], term.raw@)),
        decreases n - i,
    {
        if invoices[i].customer_id == c.id && invoice_matches_term(&invoices[i], term) {
            return true;
        }
        i = i + 1;
    }
    false
}

/// Searches customers by a free-text term: each customer whose name or email
/// contains the term ignoring case, or one of whose invoices has the term in
/// its amount or date text, with its invoice count and pending and paid
/// totals, ordered by name ascending.
pub fn get_filtered(customers: &Vec<Customer>, invoices: &Vec<Invoice>, query: &str) -> (r: Vec<
    CustomerResponse,
>)
    requires
        rows_fit(invoices@),
        invoices_wf(invoices@),
    ensures
        r@ == customer_search(customers@, invoices@, query@),
{
    let term = SearchTerm::new(query);
    let mut out: Vec<CustomerResponse> = Vec::new();
    let n = customers.len();
    let mut i: usize = 0;
    while i < n
        invariant
            n == customers@.len(),
            i <= n,
            rows_fit(invoices@),
            invoices_wf(invoices@),
            term.raw@ == query@,
            term.folded@ == crate::text::fold_case(query@),
            out@ == sort_by_name(selected_summaries(customers@.subrange(0, i as int), invoices@, query@)),
        decreases n - i,
    {
        let ghost pre = customers@.subrange(0, i as int);
        let ghost next = customers@.subrange(0, i + 1);
        assert(next.drop_last() =~= pre);
        let c = &customers[i];
        assert(next.last() == *c);
        let ghost rest = selected_summaries(pre, invoices@, query@);
        if customer_matches_term(c, &term) || has_matching_invoice(c, invoices, &term) {
            let s = summarize(c, invoices);
            assert(rest.push(s).drop_last() =~= rest);
            assert(rest.push(s).last() == s);
            insert_by_name(&mut out, s);
        }
        i = i + 1;
    }
    assert(customers@.subrange(0, n as int) =~= customers@);
    out
}

/// The number of stored customers.
pub fn get_count(customers: &Vec<Customer>) -> (r: usize)
    ensures
        r == customers@.len(),
{
    customers.len()
}

proof fn lemma_name_slot(s: Seq<CustomerResponse>, name: Seq<char>)
    ensures
        name_slot(s, name) <= s.len(),
        forall|i: int| 0 <= i < name_slot(s, name) ==> !text_lt(name, (#[trigger] s[i]).name@),
        name_slot(s, name) < s.len() ==> text_lt(name, s[name_slot(s, name) as int].name@),
    decreases s.len(),
{
    if s.len() > 0 && !text_lt(name, s[0].name@) {
        let t = s.drop_first();
        lemma_name_slot(t, name);
        assert forall|i: int| 0 <= i < name_slot(s, name) implies !text_lt(
            name,
            (#[trigger] s[i]).name@,
        ) by {
            if i > 0 {
                assert(s[i] == t[i - 1]);
            }
        }
    }
}

/// Names do not decrease along `s`.
pub open spec fn sorted_by_name(s: Seq<CustomerResponse>) -> bool {
    forall|i: int, j: int| 0 <= i < j < s.len() ==> !text_lt(#[trigger] s[j].name@, #[trigger] s[i].name@)
}

proof fn lemma_sort_by_name(s: Seq<CustomerResponse>, p: spec_fn(CustomerResponse) -> bool)
    requires
        forall|j: int| 0 <= j < s.len() ==> p(#[trigger] s[j]),
    ensures
        sort_by_name(s).len() == s.len(),
        sorted_by_name(sort_by_name(s)),
        forall|j: int| 0 <= j < s.len() ==> p(#[trigger] sort_by_name(s)[j]),
    decreases s.len(),
{
    if s.len() > 0 {
        let rest = s.drop_last();
        assert(forall|j: int| 0 <= j < rest.len() ==> rest[j] == s[j]);
        lemma_sort_by_name(rest, p);
        let sorted = sort_by_name(rest);
        let x = s.last();
        lemma_name_slot(sorted, x.name@);
        let k = name_slot(sorted, x.name@) as int;
        let r = sorted.insert(k, x);
        assert(p(s[s.len() - 1]));
        assert forall|i: int, j: int| 0 <= i < j < r.len() implies !text_lt(
            #[trigger] r[j].name@,
            #[trigger] r[i].name@,
        ) by {
            if j < k {
                assert(r[i] == sorted[i] && r[j] == sorted[j]);
                assert(!text_lt(sorted[j].name@, sorted[i].name@));
            } else if j == k {
                assert(r[i] == sorted[i] && r[j] == x);
                assert(!text_lt(x.name@, sorted[i].name@));
            } else if i < k {
                assert(r[j] == sorted[j - 1]);
                assert(r[i] == sorted[i]);
                assert(!text_lt(sorted[j - 1].name@, sorted[i].name@));
            } else if i == k {
                assert(r[j] == sorted[j - 1] && r[i] == x);
                if text_lt(sorted[j - 1].name@, x.name@) {
                    lemma_text_lt_transitive(sorted[j - 1].name@, x.name@, sorted[k].name@);
                    if k == j - 1 {
                        lemma_text_lt_irreflexive(sorted[k].name@);
                    } else {
                        assert(!text_lt(sorted[j - 1].name@, sorted[k].name@));
                    }
                }
            } else {
                assert(r[j] == sorted[j - 1]);
                assert(r[i] == sorted[i - 1]);
                assert(!text_lt(sorted[j - 1].name@, sorted[i - 1].name@));
            }
        }
    }
}

/// The search results for all customers, in stored order.
pub open spec fn all_summaries(cs: Seq<Customer>, invs: Seq<Invoice>) -> Seq<CustomerResponse> {
    Seq::new(cs.len(), |k: int| summary_of(cs[k], invs))
}

proof fn lemma_selected_are_summaries(cs: Seq<Customer>, invs: Seq<Invoice>, term: Seq<char>)
    ensures
        forall|j: int|
            0 <= j < selected_summaries(cs, invs, term).len() ==> exists|k: int|
                0 <= k < cs.len() && #[trigger] selected_summaries(cs, invs, term)[j] == summary_of(
                    cs[k],
                    invs,
                ),
    decreases cs.len(),
{
    if cs.len() > 0 {
        let pre = cs.drop_last();
        lemma_selected_are_summaries(pre, invs, term);
        let rest = selected_summaries(pre, invs, term);
        let full = selected_summaries(cs, invs, term);
        assert forall|j: int| 0 <= j < full.len() implies exists|k: int|
            0 <= k < cs.len() && #[trigger] full[j] == summary_of(cs[k], invs) by {
            if j < rest.len() {
                assert(full[j] == rest[j]);
                let k = choose|k: int| 0 <= k < pre.len() && rest[j] == summary_of(pre[k], invs);
                assert(pre[k] == cs[k]);
            } else {
                assert(full[j] == summary_of(cs[cs.len() - 1], invs));
            }
        }
    }
}

/// The invoice count of a customer is the number of invoice rows that carry
/// its identifier, whatever their status.
pub proof fn lemma_invoice_count_rows(invs: Seq<Invoice>, id: u128)
    ensures
        invoice_count(invs, id) == invs.filter(|i: Invoice| i.customer_id == id).len(),
    decreases invs.len(),
{
    reveal(Seq::filter);
    if invs.len() > 0 {
        lemma_invoice_count_rows(invs.drop_last(), id);
    }
}

/// Every customer search result carries its customer's aggregates: the number
/// of that customer's invoices, whatever their status, and the pending and
/// paid totals, each absent exactly when the customer has no invoice of that
/// status and otherwise the sum of those amounts.
pub proof fn lemma_search_aggregates(cs: Seq<Customer>, invs: Seq<Invoice>, term: Seq<char>)
    ensures
        forall|j: int|
            0 <= j < customer_search(cs, invs, term).len() ==> {
                let r = #[trigger] customer_search(cs, invs, term)[j];
                &&& r.total_invoices == invoice_count(invs, r.id) as i64
                &&& r.total_pending == status_total(invs, r.id, pending_status())
                &&& r.total_paid == status_total(invs, r.id, paid_status())
                &&& (r.total_pending is None <==> !has_status(invs, r.id, pending_status()))
            },
{
    lemma_selected_are_summaries(cs, invs, term);
    let p = |r: CustomerResponse|
        r.total_invoices == invoice_count(invs, r.id) as i64 && r.total_pending == status_total(
            invs,
            r.id,
            pending_status(),
        ) && r.total_paid == status_total(invs, r.id, paid_status());
    let sel = selected_summaries(cs, invs, term);
    assert forall|j: int| 0 <= j < sel.len() implies p(#[trigger] sel[j]) by {
        let k = choose|k: int| 0 <= k < cs.len() && sel[j] == summary_of(cs[k], invs);
    }
    lemma_sort_by_name(sel, p);
}

/// Customer search results come ordered by name ascending.
pub proof fn lemma_customer_search_sorted(cs: Seq<Customer>, invs: Seq<Invoice>, term: Seq<char>)
    ensures
        sorted_by_name(customer_search(cs, invs, term)),
{
    lemma_sort_by_name(selected_summaries(cs, invs, term), |r: CustomerResponse| true);
}

proof fn lemma_empty_term_selects_all(cs: Seq<Customer>, invs: Seq<Invoice>)
    ensures
        selected_summaries(cs, invs, Seq::empty()) == all_summaries(cs, invs),
    decreases cs.len(),
{
    if cs.len() > 0 {
        let pre = cs.drop_last();
        lemma_empty_term_selects_all(pre, invs);
        lemma_empty_term_matches_customer(cs.last());
        assert(all_summaries(cs, invs) =~= all_summaries(pre, invs).push(summary_of(cs.last(), invs)));
    } else {
        assert(all_summaries(cs, invs) =~= Seq::empty());
    }
}

/// Sorting by name rearranges the results: each occurs as often as before.
pub proof fn lemma_sort_by_name_permutes(s: Seq<CustomerResponse>)
    ensures
        sort_by_name(s).to_multiset() == s.to_multiset(),
    decreases s.len(),
{
    broadcast use vstd::seq_lib::to_multiset_build, vstd::seq_lib::to_multiset_insert;

    if s.len() > 0 {
        let rest = s.drop_last();
        lemma_sort_by_name_permutes(rest);
        let sorted = sort_by_name(rest);
        lemma_name_slot(sorted, s.last().name@);
        lemma_sort_len(rest);
        assert(rest.push(s.last()) =~= s);
        assert(rest.push(s.last()).to_multiset() == rest.to_multiset().insert(s.last()));
        let k = name_slot(sorted, s.last().name@) as int;
        assert(sorted.insert(k, s.last()).to_multiset() == sorted.to_multiset().insert(s.last()));
        assert(sort_by_name(s) == sorted.insert(k, s.last()));
    } else {
        assert(s =~= Seq::<CustomerResponse>::empty());
        assert(sort_by_name(s) =~= s);
    }
}

/// The empty term selects every customer: the search returns each of them
/// exactly once, with its aggregates, ordered by name.
pub proof fn lemma_empty_term_customers(cs: Seq<Customer>, invs: Seq<Invoice>)
    ensures
        customer_search(cs, invs, Seq::empty()) == sort_by_name(all_summaries(cs, invs)),
        customer_search(cs, invs, Seq::empty()).len() == cs.len(),
        customer_search(cs, invs, Seq::empty()).to_multiset() == all_summaries(cs, invs).to_multiset(),
        sorted_by_name(customer_search(cs, invs, Seq::empty())),
{
    lemma_empty_term_selects_all(cs, invs);
    lemma_sort_by_name(all_summaries(cs, invs), |r: CustomerResponse| true);
    lemma_sort_by_name_permutes(all_summaries(cs, invs));
}

/// A term that no customer name or email and no invoice amount or date
/// contains yields no customer.
pub proof fn lemma_no_match_customers(cs: Seq<Customer>, invs: Seq<Invoice>, term: Seq<char>)
    requires
        forall|k: int| 0 <= k < cs.len() ==> !customer_matches(#[trigger] cs[k], term),
        forall|k: int| 0 <= k < invs.len() ==> !invoice_matches(#[trigger] invs[k], term),
    ensures
        customer_search(cs, invs, term).len() == 0,
    decreases cs.len(),
{
    if cs.len() > 0 {
        let pre = cs.drop_last();
        assert(forall|k: int| 0 <= k < pre.len() ==> pre[k] == cs[k]);
        lemma_no_match_customers(pre, invs, term);
        assert(!customer_matches(cs[cs.len() - 1], term));
    }
    lemma_sort_by_name(selected_summaries(cs, invs, term), |r: CustomerResponse| true);
}

} // verus!
