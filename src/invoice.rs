//! Invoice search joined with the owning customer, invoice counts, and the
//! number of joined rows that match a search.
use vstd::prelude::*;
use crate::customer::{paid_status, pending_status};
use crate::filter::{customer_matches, lemma_empty_term_matches_customer, customer_matches_term, invoice_matches_term, invoice_matches, row_matches, SearchTerm};
use crate::model::{invoices_wf, Customer, Date, Invoice};
use crate::text::int_text;

verus! {

/// An invoice in the latest-invoices listing.
#[derive(Clone, Debug)]
pub struct GetAllLatestInvoiceResponse {
    pub id: u128,
    pub name: String,
    pub image_url: Option<String>,
    pub email: String,
    pub amount: i64,
}

/// An invoice search result.
#[derive(Clone, Debug)]
pub struct GetFilteredInvoiceResponse {
    pub id: u128,
    pub customer_id: u128,
    pub name: String,
    pub email: String,
    pub image_url: Option<String>,
    pub amount: i64,
    pub date: Date,
    pub status: String,
}

/// The numbers of pending and of paid invoices.
#[derive(Clone, Copy, Debug, PartialEq, Eq, Structural)]
pub struct StatusCount {
    pub pending: usize,
    pub paid: usize,
}

/// Why a joined listing could not be produced.
#[derive(Clone, Copy, Debug, PartialEq, Eq, Structural)]
pub enum JoinError {
    /// An invoice that belongs in the listing refers to no stored customer.
    MissingCustomer { invoice_id: u128 },
}

/// The first stored customer with identifier `id`.
pub open spec fn owner(cs: Seq<Customer>, id: u128) -> Option<Customer>
    decreases cs.len(),
{
    if cs.len() == 0 {
        None
    } else if cs[0].id == id {
        Some(cs[0])
    } else {
        owner(cs.drop_first(), id)
    }
}

/// Finds the customer that owns an invoice.
pub fn find_customer(customers: &Vec<Customer>, id: u128) -> (r: Option<usize>)
    ensures
        match r {
            Some(k) => k < customers@.len() && owner(customers@, id) == Some(customers@[k as int]),
            None => owner(customers@, id) is None,
        },
{
    let n = customers.len();
    let mut k: usize = 0;
    assert(customers@.skip(0) =~= customers@);
    while k < n
        invariant
            n == customers@.len(),
            k <= n,
            owner(customers@, id) == owner(customers@.skip(k as int), id),
        decreases n - k,
    {
        assert(customers@.skip(k as int).drop_first() =~= customers@.skip(k + 1));
        if customers[k].id == id {
            return Some(k);
        }
        k = k + 1;
    }
    None
}

/// Where a stable insertion by date descending places invoice `x` among the
/// invoices that `order` indexes: before the first one dated strictly earlier.
pub open spec fn date_slot(invs: Seq<Invoice>, order: Seq<usize>, x: Date) -> nat
    decreases order.len(),
{
    if order.len() == 0 {
        0
    } else if x.after(invs[order[0] as int].date) {
        0
    } else {
        1 + date_slot(invs, order.drop_first(), x)
    }
}

/// The invoice positions of `order`, by date descending; equal dates keep
/// their relative order.
pub open spec fn sort_by_date(invs: Seq<Invoice>, order: Seq<usize>) -> Seq<usize>
    decreases order.len(),
{
    if order.len() == 0 {
        Seq::empty()
    } else {
        let sorted = sort_by_date(invs, order.drop_last());
        sorted.insert(
            date_slot(invs, sorted, invs[order.last() as int].date) as int,
            order.last(),
        )
    }
}

proof fn lemma_date_slot_bound(invs: Seq<Invoice>, order: Seq<usize>, x: Date)
    ensures
        date_slot(invs, order, x) <= order.len(),
    decreases order.len(),
{
    if order.len() > 0 {
        lemma_date_slot_bound(invs, order.drop_first(), x);
    }
}

/// Inserts invoice position `k` into `order` at its stable place by date descending.
fn insert_by_date(invs: &Vec<Invoice>, order: &mut Vec<usize>, k: usize)
    requires
        k < invs@.len(),
        forall|j: int| 0 <= j < old(order)@.len() ==> old(order)@[j] < invs@.len(),
    ensures
        final(order)@ == old(order)@.insert(
            date_slot(invs@, old(order)@, invs@[k as int].date) as int,
            k,
        ),
        forall|j: int| 0 <= j < final(order)@.len() ==> final(order)@[j] < invs@.len(),
{
    let n = order.len();
    let d = invs[k].date;
    let mut j: usize = 0;
    proof {
        lemma_date_slot_bound(invs@, order@, d);
        assert(order@.skip(0) =~= order@);
    }
    while j < n && !d.is_after(&invs[order[j]].date)
        invariant
            n == order@.len(),
            j <= n,
            d == invs@[k as int].date,
            forall|i: int| 0 <= i < n ==> order@[i] < invs@.len(),
            date_slot(invs@, order@, d) == j + date_slot(invs@, order@.skip(j as int), d),
        decreases n - j,
    {
        assert(order@.skip(j as int).drop_first() =~= order@.skip(j + 1));
        j = j + 1;
    }
    proof {
        lemma_date_slot_bound(invs@, order@, d);
    }
    order.insert(j, k);
}

/// Invoice `i` with the customer that owns it is a joined row matching `term`.
pub open spec fn joined_match(cs: Seq<Customer>, i: Invoice, term: Seq<char>) -> bool {
    owner(cs, i.customer_id) is Some && row_matches(owner(cs, i.customer_id)->0, i, term)
}

/// Positions, in stored order, of the invoices that the search selects.
pub open spec fn matching_positions(cs: Seq<Customer>, invs: Seq<Invoice>, term: Seq<char>, n: nat) -> Seq<usize>
    decreases n,
{
    if n == 0 {
        Seq::empty()
    } else {
        let rest = matching_positions(cs, invs, term, (n - 1) as nat);
        if joined_match(cs, invs[n - 1], term) {
            rest.push((n - 1) as usize)
        } else {
            rest
        }
    }
}

/// Some invoice would enter the search by its amount or date, yet refers to
/// no stored customer.
pub open spec fn orphan_match(cs: Seq<Customer>, invs: Seq<Invoice>, term: Seq<char>) -> bool {
    exists|k: int|
        0 <= k < invs.len() && owner(cs, (#[trigger] invs[k]).customer_id) is None
            && invoice_matches(invs[k], term)
}

/// Some invoice refers to no stored customer.
pub open spec fn orphan(cs: Seq<Customer>, invs: Seq<Invoice>) -> bool {
    exists|k: int| 0 <= k < invs.len() && owner(cs, (#[trigger] invs[k]).customer_id) is None
}

/// The search result for invoice `i` owned by customer `c`.
pub open spec fn filtered_view(i: Invoice, c: Customer) -> GetFilteredInvoiceResponse {
    GetFilteredInvoiceResponse {
        id: i.id,
        customer_id: i.customer_id,
        name: c.name,
        email: c.email,
        image_url: c.image_url,
        amount: i.amount as i64,
        date: i.date,
        status: i.status,
    }
}

/// The latest-invoices entry for invoice `i` owned by customer `c`.
pub open spec fn latest_view(i: Invoice, c: Customer) -> GetAllLatestInvoiceResponse {
    GetAllLatestInvoiceResponse {
        id: i.id,
        name: c.name,
        image_url: c.image_url,
        email: c.email,
        amount: i.amount as i64,
    }
}

/// The positions 0 .. n in order.
pub open spec fn all_positions(n: nat) -> Seq<usize> {
    Seq::new(n, |k: int| k as usize)
}

/// The invoice search: matching joined rows, by date descending.
pub open spec fn invoice_search(cs: Seq<Customer>, invs: Seq<Invoice>, term: Seq<char>) -> Seq<
    GetFilteredInvoiceResponse,
> {
    let order = sort_by_date(invs, matching_positions(cs, invs, term, invs.len()));
    Seq::new(
        order.len(),
        |j: int| filtered_view(invs[order[j] as int], owner(cs, invs[order[j] as int].customer_id)->0),
    )
}

/// All invoices with their customers, by date descending.
pub open spec fn latest_listing(cs: Seq<Customer>, invs: Seq<Invoice>) -> Seq<
    GetAllLatestInvoiceResponse,
> {
    let order = sort_by_date(invs, all_positions(invs.len()));
    Seq::new(
        order.len(),
        |j: int| latest_view(invs[order[j] as int], owner(cs, invs[order[j] as int].customer_id)->0),
    )
}

fn clone_url(u: &Option<String>) -> (r: Option<String>)
    ensures
        r == *u,
{
    match u {
        Some(s) => Some(s.clone()),
        None => None,
    }
}

proof fn lemma_sort_by_date(invs: Seq<Invoice>, order: Seq<usize>, p: spec_fn(usize) -> bool)
    requires
        forall|j: int| 0 <= j < order.len() ==> p(#[trigger] order[j]),
    ensures
        sort_by_date(invs, order).len() == order.len(),
        forall|j: int|
            0 <= j < sort_by_date(invs, order).len() ==> p(#[trigger] sort_by_date(invs, order)[j]),
    decreases order.len(),
{
    if order.len() > 0 {
        let rest = order.drop_last();
        assert(forall|j: int| 0 <= j < rest.len() ==> rest[j] == order[j]);
        lemma_sort_by_date(invs, rest, p);
        let sorted = sort_by_date(invs, rest);
        lemma_date_slot_bound(invs, sorted, invs[order.last() as int].date);
        assert(p(order[order.len() - 1]));
    }
}

/// Positions, sorted by date descending, of the invoices the search selects;
/// fails on the first invoice that would enter by amount or date but has no customer.
fn search_order(customers: &Vec<Customer>, invoices: &Vec<Invoice>, term: &SearchTerm) -> (r: Result<Vec<usize>, JoinError>)
    requires
        invoices_wf(invoices@),
        term.folded@ == crate::text::fold_case(term.raw@),
    ensures
        match r {
            Ok(order) => !orphan_match(customers@, invoices@, term.raw@) && order@ == sort_by_date(
                invoices@,
                matching_positions(customers@, invoices@, term.raw@, invoices@.len()),
            ),
            Err(JoinError::MissingCustomer { invoice_id }) => orphan_match(customers@, invoices@, term.raw@)
                && exists|k: int| 0 <= k < invoices@.len() && #[trigger] invoices@[k].id == invoice_id,
        },
{
    let ghost cs = customers@;
    let ghost invs = invoices@;
    let ghost t = term.raw@;
    let n = invoices.len();
    let mut order: Vec<usize> = Vec::new();
    let mut k: usize = 0;
    while k < n
        invariant
            n == invs.len(),
            cs == customers@,
            invs == invoices@,
            t == term.raw@,
            k <= n,
            invoices_wf(invs),
            term.folded@ == crate::text::fold_case(t),
            order@ == sort_by_date(invs, matching_positions(cs, invs, t, k as nat)),
            forall|j: int| 0 <= j < order@.len() ==> order@[j] < invs.len(),
            forall|j: int|
                0 <= j < k ==> !(owner(cs, (#[trigger] invs[j]).customer_id) is None
                    && invoice_matches(invs[j], t)),
        decreases n - k,
    {
        let inv = &invoices[k];
        assert(invs[k as int].wf());
        let ghost rest = matching_positions(cs, invs, t, k as nat);
        match find_customer(customers, inv.customer_id) {
            None => {
                if invoice_matches_term(inv, term) {
                    return Err(JoinError::MissingCustomer { invoice_id: inv.id });
                }
            },
            Some(ci) => {
                if customer_matches_term(&customers[ci], term) || invoice_matches_term(inv, term) {
                    assert(rest.push(k).drop_last() =~= rest);
                    insert_by_date(invoices, &mut order, k);
                }
            },
        }
        k = k + 1;
    }
    Ok(order)
}

/// Searches invoices by a free-text term: each invoice, joined with its
/// customer, whose customer name or email contains the term ignoring case or
/// whose amount or date text contains it, ordered by date descending. Fails
/// when an invoice that the term selects by amount or date has no customer.
pub fn get_filtered(customers: &Vec<Customer>, invoices: &Vec<Invoice>, query: &str) -> (r: Result<
    Vec<GetFilteredInvoiceResponse>,
    JoinError,
>)
    requires
        invoices_wf(invoices@),
    ensures
        r is Err <==> orphan_match(customers@, invoices@, query@),
        r matches Ok(v) ==> v@ == invoice_search(customers@, invoices@, query@),
        r matches Err(JoinError::MissingCustomer { invoice_id }) ==> exists|k: int|
            0 <= k < invoices@.len() && #[trigger] invoices@[k].id == invoice_id,
{
    let term = SearchTerm::new(query);
    let order = match search_order(customers, invoices, &term) {
        Ok(o) => o,
        Err(e) => {
            return Err(e);
        },
    };
    let ghost cs = customers@;
    let ghost invs = invoices@;
    let total = invoices.len();
    assert(invs.len() == total);
    proof {
        let positions = matching_positions(cs, invs, query@, invs.len());
        lemma_positions_owned(cs, invs, query@, invs.len());
        lemma_sort_by_date(
            invs,
            positions,
            |x: usize| x < invs.len() && owner(cs, invs[x as int].customer_id) is Some,
        );
    }
    let mut out: Vec<GetFilteredInvoiceResponse> = Vec::new();
    let m = order.len();
    let mut j: usize = 0;
    while j < m
        invariant
            m == order@.len(),
            j <= m,
            cs == customers@,
            invs == invoices@,
            order@ == sort_by_date(invs, matching_positions(cs, invs, query@, invs.len())),
            forall|i: int| 0 <= i < m ==> order@[i] < invs.len(),
            forall|i: int| 0 <= i < m ==> owner(cs, invs[order@[i] as int].customer_id) is Some,
            out@.len() == j,
            forall|i: int|
                0 <= i < j ==> out@[i] == filtered_view(
                    invs[order@[i] as int],
                    owner(cs, invs[order@[i] as int].customer_id)->0,
                ),
        decreases m - j,
    {
        let inv = &invoices[order[j]];
        let ci = match find_customer(customers, inv.customer_id) {
            Some(ci) => ci,
            None => {
                return Err(JoinError::MissingCustomer { invoice_id: inv.id });
            },
        };
        let c = &customers[ci];
        out.push(
            GetFilteredInvoiceResponse {
                id: inv.id,
                customer_id: inv.customer_id,
                name: c.name.clone(),
                email: c.email.clone(),
                image_url: clone_url(&c.image_url),
                amount: inv.amount as i64,
                date: inv.date,
                status: inv.status.clone(),
            },
        );
        j = j + 1;
    }
    assert(out@ =~= invoice_search(cs, invs, query@));
    Ok(out)
}

proof fn lemma_positions_owned(cs: Seq<Customer>, invs: Seq<Invoice>, term: Seq<char>, n: nat)
    requires
        n <= invs.len(),
        invs.len() <= usize::MAX,
    ensures
        forall|j: int|
            0 <= j < matching_positions(cs, invs, term, n).len() ==> {
                let p = #[trigger] matching_positions(cs, invs, term, n)[j];
                p < n && joined_match(cs, invs[p as int], term)
            },
    decreases n,
{
    if n > 0 {
        lemma_positions_owned(cs, invs, term, (n - 1) as nat);
        let rest = matching_positions(cs, invs, term, (n - 1) as nat);
        if joined_match(cs, invs[n - 1], term) {
            assert forall|j: int| 0 <= j < rest.len() + 1 implies {
                let p = #[trigger] rest.push((n - 1) as usize)[j];
                p < n && joined_match(cs, invs[p as int], term)
            } by {
                if j < rest.len() {
                    assert(rest.push((n - 1) as usize)[j] == rest[j]);
                }
            }
        }
    }
}

/// Lists every invoice with its customer's name, email and image, ordered by
/// date descending. Fails when some invoice has no customer.
pub fn get_all_latest(customers: &Vec<Customer>, invoices: &Vec<Invoice>) -> (r: Result<
    Vec<GetAllLatestInvoiceResponse>,
    JoinError,
>)
    ensures
        r is Err <==> orphan(customers@, invoices@),
        r matches Ok(v) ==> v@ == latest_listing(customers@, invoices@),
        r matches Err(JoinError::MissingCustomer { invoice_id }) ==> exists|k: int|
            0 <= k < invoices@.len() && #[trigger] invoices@[k].id == invoice_id,
{
    let ghost cs = customers@;
    let ghost invs = invoices@;
    let n = invoices.len();
    let mut order: Vec<usize> = Vec::new();
    let mut k: usize = 0;
    while k < n
        invariant
            n == invs.len(),
            cs == customers@,
            invs == invoices@,
            k <= n,
            order@ == sort_by_date(invs, all_positions(k as nat)),
            forall|j: int| 0 <= j < order@.len() ==> order@[j] < invs.len(),
            forall|j: int| 0 <= j < k ==> owner(cs, (#[trigger] invs[j]).customer_id) is Some,
        decreases n - k,
    {
        if find_customer(customers, invoices[k].customer_id).is_none() {
            return Err(JoinError::MissingCustomer { invoice_id: invoices[k].id });
        }
        assert(all_positions((k + 1) as nat).drop_last() =~= all_positions(k as nat));
        insert_by_date(invoices, &mut order, k);
        k = k + 1;
    }
    proof {
        lemma_sort_by_date(
            invs,
            all_positions(n as nat),
            |x: usize| x < invs.len() && owner(cs, invs[x as int].customer_id) is Some,
        );
    }
    let mut out: Vec<GetAllLatestInvoiceResponse> = Vec::new();
    let m = order.len();
    let mut j: usize = 0;
    while j < m
        invariant
            m == order@.len(),
            j <= m,
            cs == customers@,
            invs == invoices@,
            order@ == sort_by_date(invs, all_positions(invs.len())),
            forall|i: int| 0 <= i < m ==> order@[i] < invs.len(),
            forall|i: int| 0 <= i < m ==> owner(cs, invs[order@[i] as int].customer_id) is Some,
            !orphan(cs, invs),
            out@.len() == j,
            forall|i: int|
                0 <= i < j ==> out@[i] == latest_view(
                    invs[order@[i] as int],
                    owner(cs, invs[order@[i] as int].customer_id)->0,
                ),
        decreases m - j,
    {
        let inv = &invoices[order[j]];
        let ci = match find_customer(customers, inv.customer_id) {
            Some(ci) => ci,
            None => {
                return Err(JoinError::MissingCustomer { invoice_id: inv.id });
            },
        };
        let c = &customers[ci];
        out.push(
            GetAllLatestInvoiceResponse {
                id: inv.id,
                name: c.name.clone(),
                image_url: clone_url(&c.image_url),
                email: c.email.clone(),
                amount: inv.amount as i64,
            },
        );
        j = j + 1;
    }
    assert(out@ =~= latest_listing(cs, invs));
    Ok(out)
}

/// The number of stored invoices.
pub fn get_count(invoices: &Vec<Invoice>) -> (r: usize)
    ensures
        r == invoices@.len(),
{
    invoices.len()
}

/// How many invoices of `invs` carry the given status.
pub open spec fn status_count(invs: Seq<Invoice>, status: Seq<char>) -> nat
    decreases invs.len(),
{
    if invs.len() == 0 {
        0
    } else {
        status_count(invs.drop_last(), status) + if invs.last().status@ == status {
            1nat
        } else {
            0nat
        }
    }
}

proof fn lemma_status_count_bound(invs: Seq<Invoice>, status: Seq<char>)
    ensures
        status_count(invs, status) <= invs.len(),
    decreases invs.len(),
{
    if invs.len() > 0 {
        lemma_status_count_bound(invs.drop_last(), status);
    }
}

/// The numbers of invoices whose status is exactly "pending" and exactly "paid".
pub fn get_status_count(invoices: &Vec<Invoice>) -> (r: StatusCount)
    ensures
        r.pending == status_count(invoices@, pending_status()),
        r.paid == status_count(invoices@, paid_status()),
{
    let pending = "pending".to_owned();
    let paid = "paid".to_owned();
    proof {
        reveal_strlit("pending");
        reveal_strlit("paid");
        assert(pending@ =~= pending_status());
        assert(paid@ =~= paid_status());
    }
    let n = invoices.len();
    let mut r = StatusCount { pending: 0, paid: 0 };
    let mut i: usize = 0;
    while i < n
        invariant
            n == invoices@.len(),
            i <= n,
            pending@ == pending_status(),
            paid@ == paid_status(),
            r.pending == status_count(invoices@.subrange(0, i as int), pending_status()),
            r.paid == status_count(invoices@.subrange(0, i as int), paid_status()),
        decreases n - i,
    {
        let ghost next = invoices@.subrange(0, i + 1);
        assert(next.drop_last() =~= invoices@.subrange(0, i as int));
        proof {
            lemma_status_count_bound(next, pending_status());
            lemma_status_count_bound(next, paid_status());
        }
        if invoices[i].status == pending {
            r.pending = r.pending + 1;
        }
        if invoices[i].status == paid {
            r.paid = r.paid + 1;
        }
        i = i + 1;
    }
    assert(invoices@.subrange(0, n as int) =~= invoices@);
    r
}

proof fn lemma_positions_len(cs: Seq<Customer>, invs: Seq<Invoice>, term: Seq<char>, n: nat)
    ensures
        matching_positions(cs, invs, term, n).len() <= n,
    decreases n,
{
    if n > 0 {
        lemma_positions_len(cs, invs, term, (n - 1) as nat);
    }
}

/// The number of (invoice, customer) rows of the inner join that match the
/// term; callers derive a page count from it.
pub fn get_pages(customers: &Vec<Customer>, invoices: &Vec<Invoice>, query: &str) -> (r: usize)
    requires
        invoices_wf(invoices@),
    ensures
        r == matching_positions(customers@, invoices@, query@, invoices@.len()).len(),
{
    let term = SearchTerm::new(query);
    let n = invoices.len();
    let mut count: usize = 0;
    let mut k: usize = 0;
    while k < n
        invariant
            n == invoices@.len(),
            k <= n,
            invoices_wf(invoices@),
            term.raw@ == query@,
            term.folded@ == crate::text::fold_case(query@),
            count == matching_positions(customers@, invoices@, query@, k as nat).len(),
        decreases n - k,
    {
        let inv = &invoices[k];
        assert(invoices@[k as int].wf());
        proof {
            lemma_positions_len(customers@, invoices@, query@, k as nat);
        }
        match find_customer(customers, inv.customer_id) {
            None => {},
            Some(ci) => {
                if customer_matches_term(&customers[ci], &term) || invoice_matches_term(inv, &term) {
                    count = count + 1;
                }
            },
        }
        k = k + 1;
    }
    count
}

proof fn lemma_date_slot(invs: Seq<Invoice>, order: Seq<usize>, x: Date)
    ensures
        date_slot(invs, order, x) <= order.len(),
        forall|i: int|
            0 <= i < date_slot(invs, order, x) ==> !x.after(invs[(#[trigger] order[i]) as int].date),
        date_slot(invs, order, x) < order.len() ==> x.after(
            invs[order[date_slot(invs, order, x) as int] as int].date,
        ),
    decreases order.len(),
{
    if order.len() > 0 && !x.after(invs[order[0] as int].date) {
        let t = order.drop_first();
        lemma_date_slot(invs, t, x);
        assert forall|i: int| 0 <= i < date_slot(invs, order, x) implies !x.after(
            invs[(#[trigger] order[i]) as int].date,
        ) by {
            if i > 0 {
                assert(order[i] == t[i - 1]);
            }
        }
    }
}

/// Dates do not increase along the invoices that `order` indexes.
pub open spec fn sorted_by_date(invs: Seq<Invoice>, order: Seq<usize>) -> bool {
    forall|i: int, j: int|
        0 <= i < j < order.len() ==> !invs[(#[trigger] order[j]) as int].date.after(
            invs[(#[trigger] order[i]) as int].date,
        )
}

proof fn lemma_sort_by_date_sorted(invs: Seq<Invoice>, order: Seq<usize>)
    ensures
        sorted_by_date(invs, sort_by_date(invs, order)),
    decreases order.len(),
{
    if order.len() > 0 {
        let rest = order.drop_last();
        lemma_sort_by_date_sorted(invs, rest);
        let sorted = sort_by_date(invs, rest);
        let x = order.last();
        let d = invs[x as int].date;
        lemma_date_slot(invs, sorted, d);
        let k = date_slot(invs, sorted, d) as int;
        let r = sorted.insert(k, x);
        assert forall|i: int, j: int| 0 <= i < j < r.len() implies !invs[(#[trigger] r[j]) as int].date.after(
            invs[(#[trigger] r[i]) as int].date,
        ) by {
            if j < k {
                assert(r[i] == sorted[i] && r[j] == sorted[j]);
            } else if j == k {
                assert(r[i] == sorted[i] && r[j] == x);
            } else if i < k {
                assert(r[j] == sorted[j - 1] && r[i] == sorted[i]);
            } else if i == k {
                assert(r[j] == sorted[j - 1] && r[i] == x);
                if k < j - 1 {
                    assert(!invs[sorted[j - 1] as int].date.after(invs[sorted[k] as int].date));
                }
            } else {
                assert(r[j] == sorted[j - 1] && r[i] == sorted[i - 1]);
            }
        }
    }
}

/// Invoice search results come ordered by date descending.
pub proof fn lemma_invoice_search_sorted(cs: Seq<Customer>, invs: Seq<Invoice>, term: Seq<char>)
    ensures
        ({
            let r = invoice_search(cs, invs, term);
            forall|i: int, j: int| 0 <= i < j < r.len() ==> !(#[trigger] r[j]).date.after(#[trigger] r[i].date)
        }),
{
    let positions = matching_positions(cs, invs, term, invs.len());
    let order = sort_by_date(invs, positions);
    lemma_sort_by_date_sorted(invs, positions);
    lemma_sort_by_date(invs, positions, |x: usize| true);
    let r = invoice_search(cs, invs, term);
    assert forall|i: int, j: int| 0 <= i < j < r.len() implies !(#[trigger] r[j]).date.after(
        #[trigger] r[i].date,
    ) by {
        assert(r[i].date == invs[order[i] as int].date);
        assert(r[j].date == invs[order[j] as int].date);
    }
}

/// Positions, in stored order, of the invoices whose customer resolves.
pub open spec fn owned_positions(cs: Seq<Customer>, invs: Seq<Invoice>, n: nat) -> Seq<usize>
    decreases n,
{
    if n == 0 {
        Seq::empty()
    } else {
        let rest = owned_positions(cs, invs, (n - 1) as nat);
        if owner(cs, invs[n - 1].customer_id) is Some {
            rest.push((n - 1) as usize)
        } else {
            rest
        }
    }
}

proof fn lemma_empty_term_positions(cs: Seq<Customer>, invs: Seq<Invoice>, n: nat)
    ensures
        matching_positions(cs, invs, Seq::empty(), n) == owned_positions(cs, invs, n),
    decreases n,
{
    if n > 0 {
        lemma_empty_term_positions(cs, invs, (n - 1) as nat);
        if owner(cs, invs[n - 1].customer_id) is Some {
            lemma_empty_term_matches_customer(owner(cs, invs[n - 1].customer_id)->0);
        }
    }
}

proof fn lemma_owned_all(cs: Seq<Customer>, invs: Seq<Invoice>, n: nat)
    requires
        n <= invs.len(),
        !orphan(cs, invs),
    ensures
        owned_positions(cs, invs, n) =~= all_positions(n),
    decreases n,
{
    if n > 0 {
        lemma_owned_all(cs, invs, (n - 1) as nat);
        assert(owner(cs, invs[n - 1].customer_id) is Some);
        assert(all_positions(n) =~= all_positions((n - 1) as nat).push((n - 1) as usize));
    }
}

/// Sorting by date rearranges the positions: each occurs as often as before.
pub proof fn lemma_sort_by_date_permutes(invs: Seq<Invoice>, order: Seq<usize>)
    ensures
        sort_by_date(invs, order).to_multiset() == order.to_multiset(),
    decreases order.len(),
{
    broadcast use vstd::seq_lib::to_multiset_build, vstd::seq_lib::to_multiset_insert;

    if order.len() > 0 {
        let rest = order.drop_last();
        lemma_sort_by_date_permutes(invs, rest);
        let sorted = sort_by_date(invs, rest);
        lemma_date_slot_bound(invs, sorted, invs[order.last() as int].date);
        lemma_sort_by_date(invs, rest, |y: usize| true);
        assert(rest.push(order.last()) =~= order);
        assert(rest.push(order.last()).to_multiset() == rest.to_multiset().insert(order.last()));
        let k = date_slot(invs, sorted, invs[order.last() as int].date) as int;
        assert(sorted.insert(k, order.last()).to_multiset() == sorted.to_multiset().insert(
            order.last(),
        ));
        assert(sort_by_date(invs, order) == sorted.insert(k, order.last()));
    } else {
        assert(order =~= Seq::<usize>::empty());
        assert(sort_by_date(invs, order) =~= order);
    }
}

proof fn lemma_sort_by_date_stable(invs: Seq<Invoice>, order: Seq<usize>)
    requires
        forall|i: int, j: int| 0 <= i < j < order.len() ==> order[i] < order[j],
    ensures
        ({
            let r = sort_by_date(invs, order);
            forall|i: int, j: int|
                0 <= i < j < r.len() && invs[r[i] as int].date == invs[r[j] as int].date ==> #[trigger] r[i]
                    < #[trigger] r[j]
        }),
    decreases order.len(),
{
    if order.len() > 0 {
        let rest = order.drop_last();
        let x = order.last();
        assert(forall|j: int| 0 <= j < rest.len() ==> rest[j] == order[j]);
        lemma_sort_by_date_stable(invs, rest);
        lemma_sort_by_date_sorted(invs, rest);
        lemma_sort_by_date(invs, rest, |y: usize| y < x);
        let sorted = sort_by_date(invs, rest);
        let d = invs[x as int].date;
        lemma_date_slot(invs, sorted, d);
        let k = date_slot(invs, sorted, d) as int;
        let r = sorted.insert(k, x);
        assert forall|i: int, j: int|
            0 <= i < j < r.len() && invs[r[i] as int].date == invs[r[j] as int].date implies #[trigger] r[i]
                < #[trigger] r[j] by {
            if j < k {
                assert(r[i] == sorted[i] && r[j] == sorted[j]);
            } else if j == k {
                assert(r[i] == sorted[i] && r[j] == x);
            } else if i < k {
                assert(r[j] == sorted[j - 1] && r[i] == sorted[i]);
            } else if i == k {
                assert(r[j] == sorted[j - 1] && r[i] == x);
                if k < j - 1 {
                    assert(!invs[sorted[j - 1] as int].date.after(invs[sorted[k] as int].date));
                }
                assert(d.after(invs[sorted[k] as int].date));
            } else {
                assert(r[j] == sorted[j - 1] && r[i] == sorted[i - 1]);
            }
        }
    }
}

proof fn lemma_positions_increasing(cs: Seq<Customer>, invs: Seq<Invoice>, term: Seq<char>, n: nat)
    requires
        n <= usize::MAX,
    ensures
        forall|i: int, j: int|
            0 <= i < j < matching_positions(cs, invs, term, n).len() ==> #[trigger] matching_positions(
                cs,
                invs,
                term,
                n,
            )[i] < #[trigger] matching_positions(cs, invs, term, n)[j],
        forall|i: int|
            0 <= i < matching_positions(cs, invs, term, n).len() ==> #[trigger] matching_positions(
                cs,
                invs,
                term,
                n,
            )[i] < n,
    decreases n,
{
    if n > 0 {
        lemma_positions_increasing(cs, invs, term, (n - 1) as nat);
        let rest = matching_positions(cs, invs, term, (n - 1) as nat);
        let last = (n - 1) as usize;
        if joined_match(cs, invs[n - 1], term) {
            let full = rest.push(last);
            assert(forall|i: int| 0 <= i < rest.len() ==> full[i] == rest[i]);
            assert(full[rest.len() as int] == last);
        }
    }
}

/// Invoices with equal dates keep their stored order in a search result.
pub proof fn lemma_invoice_search_stable(cs: Seq<Customer>, invs: Seq<Invoice>, term: Seq<char>)
    requires
        invs.len() <= usize::MAX,
    ensures
        ({
            let order = sort_by_date(invs, matching_positions(cs, invs, term, invs.len()));
            forall|i: int, j: int|
                0 <= i < j < order.len() && invs[order[i] as int].date == invs[order[j] as int].date
                    ==> #[trigger] order[i] < #[trigger] order[j]
        }),
{
    lemma_positions_increasing(cs, invs, term, invs.len());
    lemma_sort_by_date_stable(invs, matching_positions(cs, invs, term, invs.len()));
}

/// The empty term selects every invoice whose customer resolves, by date
/// descending; when every invoice has a customer, each invoice appears
/// exactly once.
pub proof fn lemma_empty_term_invoices(cs: Seq<Customer>, invs: Seq<Invoice>)
    ensures
        !orphan_match(cs, invs, Seq::empty()) ==> !orphan(cs, invs),
        invoice_search(cs, invs, Seq::empty()).len() == owned_positions(cs, invs, invs.len()).len(),
        !orphan(cs, invs) ==> invoice_search(cs, invs, Seq::empty()).len() == invs.len(),
        !orphan(cs, invs) ==> sort_by_date(
            invs,
            matching_positions(cs, invs, Seq::empty(), invs.len()),
        ).to_multiset() == all_positions(invs.len()).to_multiset(),
{
    lemma_sort_by_date_permutes(invs, matching_positions(cs, invs, Seq::empty(), invs.len()));
    lemma_empty_term_positions(cs, invs, invs.len());
    lemma_sort_by_date(invs, owned_positions(cs, invs, invs.len()), |x: usize| true);
    if !orphan(cs, invs) {
        lemma_owned_all(cs, invs, invs.len());
    }
    if orphan(cs, invs) {
        let k = choose|k: int| 0 <= k < invs.len() && owner(cs, (#[trigger] invs[k]).customer_id) is None;
        let t = Seq::<char>::empty();
        assert(int_text(invs[k].amount as int).subrange(0int, 0int + t.len()) =~= t);
        assert(invoice_matches(invs[k], t));
    }
}

proof fn lemma_no_match_positions(cs: Seq<Customer>, invs: Seq<Invoice>, term: Seq<char>, n: nat)
    requires
        n <= invs.len(),
        forall|k: int| 0 <= k < cs.len() ==> !customer_matches(#[trigger] cs[k], term),
        forall|k: int| 0 <= k < invs.len() ==> !invoice_matches(#[trigger] invs[k], term),
    ensures
        matching_positions(cs, invs, term, n).len() == 0,
    decreases n,
{
    if n > 0 {
        lemma_no_match_positions(cs, invs, term, (n - 1) as nat);
        assert(!invoice_matches(invs[n - 1], term));
        lemma_owner_in(cs, invs[n - 1].customer_id);
    }
}

proof fn lemma_owner_in(cs: Seq<Customer>, id: u128)
    ensures
        owner(cs, id) matches Some(c) ==> exists|k: int| 0 <= k < cs.len() && #[trigger] cs[k] == c,
    decreases cs.len(),
{
    if cs.len() > 0 && cs[0].id != id {
        lemma_owner_in(cs.drop_first(), id);
        if owner(cs, id) is Some {
            let k = choose|k: int| 0 <= k < cs.len() - 1 && #[trigger] cs.drop_first()[k] == owner(cs, id)->0;
            assert(cs[k + 1] == cs.drop_first()[k]);
        }
    }
}

/// A term that no customer name or email and no invoice amount or date
/// contains yields an empty invoice search, not a failure.
pub proof fn lemma_no_match_invoices(cs: Seq<Customer>, invs: Seq<Invoice>, term: Seq<char>)
    requires
        forall|k: int| 0 <= k < cs.len() ==> !customer_matches(#[trigger] cs[k], term),
        forall|k: int| 0 <= k < invs.len() ==> !invoice_matches(#[trigger] invs[k], term),
    ensures
        !orphan_match(cs, invs, term),
        invoice_search(cs, invs, term).len() == 0,
{
    lemma_no_match_positions(cs, invs, term, invs.len());
    lemma_sort_by_date(invs, matching_positions(cs, invs, term, invs.len()), |x: usize| true);
}

} // verus!
