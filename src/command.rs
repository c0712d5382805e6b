//! Invoice commands: creating, reading, updating and deleting single invoices
//! from a partially specified request, over a table whose identifiers the
//! table itself hands out.
use vstd::prelude::*;
use crate::model::{invoices_wf, Customer, Date, Invoice};

verus! {

/// A create or update payload; every field may be absent.
#[derive(Clone, Debug)]
pub struct InvoiceRequest {
    pub customer_id: Option<u128>,
    pub amount: Option<i32>,
    pub status: Option<String>,
    pub date: Option<Date>,
}

/// Why an invoice command failed.
#[derive(Clone, Copy, Debug, PartialEq, Eq, Structural)]
pub enum InvoiceError {
    /// No stored invoice has the identifier.
    NotFound,
    /// The request lacks `customer_id`, `amount` or `status`.
    ValidationError,
    /// The request's `customer_id` names no stored customer.
    UnknownCustomer,
}

impl InvoiceRequest {
    /// The request carries every field that a create or update needs.
    pub open spec fn complete(&self) -> bool {
        self.customer_id is Some && self.amount is Some && self.status is Some
    }

    /// A present date is a well-formed one.
    pub open spec fn wf(&self) -> bool {
        self.date matches Some(d) ==> d.wf()
    }

    /// `item` with the request's fields written over it; the date is kept
    /// when the request has none.
    pub open spec fn applied_to(&self, item: Invoice) -> Invoice {
        Invoice {
            id: item.id,
            customer_id: self.customer_id->0,
            amount: self.amount->0,
            status: self.status->0,
            date: match self.date {
                Some(d) => d,
                None => item.date,
            },
        }
    }

    /// Writes the request over `item`, or fails with `ValidationError`, leaving
    /// `item` as it was, when `customer_id`, `amount` or `status` is absent.
    pub fn update(&self, item: &mut Invoice) -> (r: Result<(), InvoiceError>)
        ensures
            r is Ok <==> self.complete(),
            r is Err ==> r == Err::<(), InvoiceError>(InvoiceError::ValidationError) && *final(item)
                == *old(item),
            r is Ok ==> *final(item) == self.applied_to(*old(item)),
    {
        let (customer_id, amount, status) = match (&self.customer_id, &self.amount, &self.status) {
            (Some(c), Some(a), Some(s)) => (*c, *a, s.clone()),
            _ => {
                return Err(InvoiceError::ValidationError);
            },
        };
        item.customer_id = customer_id;
        item.amount = amount;
        item.status = status;
        if let Some(d) = self.date {
            item.date = d;
        }
        Ok(())
    }
}

/// Identifiers are pairwise distinct.
pub open spec fn ids_unique(s: Seq<Invoice>) -> bool {
    forall|i: int, j: int| 0 <= i < s.len() && 0 <= j < s.len() && i != j ==> s[i].id != s[j].id
}

/// Some invoice of `s` has identifier `id`.
pub open spec fn has_id(s: Seq<Invoice>, id: u128) -> bool {
    exists|k: int| 0 <= k < s.len() && (#[trigger] s[k]).id == id
}

/// Some stored customer has identifier `id`.
pub open spec fn customer_known(cs: Seq<Customer>, id: u128) -> bool {
    exists|k: int| 0 <= k < cs.len() && (#[trigger] cs[k]).id == id
}

/// Every invoice of `s` refers to a stored customer.
pub open spec fn references_customers(cs: Seq<Customer>, s: Seq<Invoice>) -> bool {
    forall|k: int| 0 <= k < s.len() ==> customer_known(cs, (#[trigger] s[k]).customer_id)
}

/// The request is complete and its `customer_id` names a stored customer.
pub open spec fn request_accepted(cs: Seq<Customer>, req: InvoiceRequest) -> bool {
    req.complete() && customer_known(cs, req.customer_id->0)
}

/// Whether a stored customer has identifier `id`.
pub fn find_customer_id(customers: &Vec<Customer>, id: u128) -> (r: bool)
    ensures
        r == customer_known(customers@, id),
{
    let n = customers.len();
    let mut k: usize = 0;
    while k < n
        invariant
            n == customers@.len(),
            k <= n,
            forall|j: int| 0 <= j < k ==> (#[trigger] customers@[j]).id != id,
        decreases n - k,
    {
        if customers[k].id == id {
            return true;
        }
        k = k + 1;
    }
    false
}

/// Checks a request against the stored customers: `ValidationError` when a
/// required field is absent, else `UnknownCustomer` when its customer is not stored.
pub fn check_request(customers: &Vec<Customer>, req: &InvoiceRequest) -> (r: Result<(), InvoiceError>)
    ensures
        r is Ok <==> request_accepted(customers@, *req),
        !req.complete() ==> r == Err::<(), InvoiceError>(InvoiceError::ValidationError),
        req.complete() && !customer_known(customers@, req.customer_id->0) ==> r == Err::<
            (),
            InvoiceError,
        >(InvoiceError::UnknownCustomer),
{
    match req.customer_id {
        Some(c) => {
            if req.amount.is_none() || req.status.is_none() {
                Err(InvoiceError::ValidationError)
            } else if find_customer_id(customers, c) {
                Ok(())
            } else {
                Err(InvoiceError::UnknownCustomer)
            }
        },
        None => Err(InvoiceError::ValidationError),
    }
}

/// A table of invoices with identifiers handed out in increasing order.
pub struct InvoiceBook {
    pub invoices: Vec<Invoice>,
    pub next_id: u128,
    /// The date a record takes when created without one.
    pub default_date: Date,
}

fn copy_invoice(i: &Invoice) -> (r: Invoice)
    ensures
        r == *i,
{
    Invoice {
        id: i.id,
        customer_id: i.customer_id,
        amount: i.amount,
        status: i.status.clone(),
        date: i.date,
    }
}

impl InvoiceBook {
    pub open spec fn view(&self) -> Seq<Invoice> {
        self.invoices@
    }

    pub open spec fn wf(&self) -> bool {
        &&& ids_unique(self.invoices@)
        &&& forall|k: int| 0 <= k < self.invoices@.len() ==> (#[trigger] self.invoices@[k]).id < self.next_id
        &&& invoices_wf(self.invoices@)
        &&& self.default_date.wf()
    }

    /// An empty table whose records default to `default_date`.
    pub fn new(default_date: Date) -> (r: InvoiceBook)
        requires
            default_date.wf(),
        ensures
            r.wf(),
            r@.len() == 0,
            r.default_date == default_date,
    {
        InvoiceBook { invoices: Vec::new(), next_id: 1, default_date }
    }

    /// The position of the invoice with identifier `id`.
    pub fn load_item(&self, id: u128) -> (r: Result<usize, InvoiceError>)
        ensures
            r is Err <==> !has_id(self@, id),
            r is Err ==> r == Err::<usize, InvoiceError>(InvoiceError::NotFound),
            r matches Ok(k) ==> k < self@.len() && self@[k as int].id == id,
    {
        let n = self.invoices.len();
        let mut k: usize = 0;
        while k < n
            invariant
                n == self@.len(),
                k <= n,
                forall|j: int| 0 <= j < k ==> (#[trigger] self@[j]).id != id,
            decreases n - k,
        {
            if self.invoices[k].id == id {
                return Ok(k);
            }
            k = k + 1;
        }
        Err(InvoiceError::NotFound)
    }

    /// The invoice with identifier `id`, if there is one.
    pub fn get_by_id(&self, id: u128) -> (r: Option<Invoice>)
        ensures
            r is None <==> !has_id(self@, id),
            r matches Some(x) ==> exists|k: int| 0 <= k < self@.len() && self@[k] == x && x.id == id,
    {
        match self.load_item(id) {
            Ok(k) => Some(copy_invoice(&self.invoices[k])),
            Err(_) => None,
        }
    }

    /// Creates an invoice from a complete request under a fresh identifier,
    /// dated by the request or else by the table's default date. Fails,
    /// changing nothing, with `ValidationError` when a required field is
    /// absent, else with `UnknownCustomer` when its customer is not stored.
    pub fn create(&mut self, customers: &Vec<Customer>, req: &InvoiceRequest) -> (r: Result<
        Invoice,
        InvoiceError,
    >)
        requires
            old(self).wf(),
            req.wf(),
            old(self).next_id < u128::MAX,
        ensures
            final(self).wf(),
            r is Ok <==> request_accepted(customers@, *req),
            !req.complete() ==> r == Err::<Invoice, InvoiceError>(InvoiceError::ValidationError),
            req.complete() && !customer_known(customers@, req.customer_id->0) ==> r == Err::<
                Invoice,
                InvoiceError,
            >(InvoiceError::UnknownCustomer),
            r is Err ==> final(self)@ == old(self)@,
            references_customers(customers@, old(self)@) ==> references_customers(
                customers@,
                final(self)@,
            ),
            r matches Ok(x) ==> {
                &&& !has_id(old(self)@, x.id)
                &&& x == req.applied_to(
                    Invoice {
                        id: x.id,
                        customer_id: x.customer_id,
                        amount: x.amount,
                        status: x.status,
                        date: old(self).default_date,
                    },
                )
                &&& final(self)@ == old(self)@.push(x)
            },
    {
        match check_request(customers, req) {
            Err(e) => {
                return Err(e);
            },
            Ok(()) => {},
        }
        let mut item = Invoice {
            id: self.next_id,
            customer_id: 0,
            amount: 0,
            status: String::new(),
            date: self.default_date,
        };
        match req.update(&mut item) {
            Err(e) => {
                return Err(e);
            },
            Ok(()) => {},
        }
        let stored = copy_invoice(&item);
        self.invoices.push(stored);
        self.next_id = self.next_id + 1;
        assert(forall|k: int| 0 <= k < old(self)@.len() ==> old(self)@[k] == #[trigger] self@[k]);
        assert(self@[old(self)@.len() as int] == item);
        Ok(item)
    }

    /// Writes a complete request over the invoice with identifier `id`,
    /// keeping its date when the request has none. Fails, changing nothing,
    /// with `NotFound` when there is no such invoice, else with
    /// `ValidationError` when a required field is absent, else with
    /// `UnknownCustomer` when the request's customer is not stored.
    pub fn update(&mut self, customers: &Vec<Customer>, id: u128, req: &InvoiceRequest) -> (r: Result<
        Invoice,
        InvoiceError,
    >)
        requires
            old(self).wf(),
            req.wf(),
        ensures
            final(self).wf(),
            r is Ok <==> has_id(old(self)@, id) && request_accepted(customers@, *req),
            !has_id(old(self)@, id) ==> r == Err::<Invoice, InvoiceError>(InvoiceError::NotFound),
            has_id(old(self)@, id) && !req.complete() ==> r == Err::<Invoice, InvoiceError>(
                InvoiceError::ValidationError,
            ),
            has_id(old(self)@, id) && req.complete() && !customer_known(
                customers@,
                req.customer_id->0,
            ) ==> r == Err::<Invoice, InvoiceError>(InvoiceError::UnknownCustomer),
            r is Err ==> final(self)@ == old(self)@,
            references_customers(customers@, old(self)@) ==> references_customers(
                customers@,
                final(self)@,
            ),
            r matches Ok(x) ==> x.id == id && final(self)@.len() == old(self)@.len() && forall|j: int|
                0 <= j < old(self)@.len() ==> if old(self)@[j].id == id {
                    #[trigger] final(self)@[j] == x && x == req.applied_to(old(self)@[j])
                } else {
                    final(self)@[j] == old(self)@[j]
                },
    {
        let k = match self.load_item(id) {
            Ok(k) => k,
            Err(e) => {
                return Err(e);
            },
        };
        match check_request(customers, req) {
            Err(e) => {
                return Err(e);
            },
            Ok(()) => {},
        }
        let mut item = copy_invoice(&self.invoices[k]);
        match req.update(&mut item) {
            Err(e) => {
                return Err(e);
            },
            Ok(()) => {},
        }
        let stored = copy_invoice(&item);
        self.invoices.set(k, stored);
        assert(self@ =~= old(self)@.update(k as int, item));
        assert(item == req.applied_to(old(self)@[k as int]));
        assert(forall|j: int| 0 <= j < self@.len() && j != k ==> old(self)@[j] == #[trigger] self@[j]);
        Ok(item)
    }

    /// Deletes the invoice with identifier `id`; fails with `NotFound`,
    /// changing nothing, when there is none.
    pub fn remove(&mut self, id: u128) -> (r: Result<(), InvoiceError>)
        requires
            old(self).wf(),
        ensures
            final(self).wf(),
            r is Err <==> !has_id(old(self)@, id),
            r is Err ==> r == Err::<(), InvoiceError>(InvoiceError::NotFound) && final(self)@ == old(self)@,
            r is Ok ==> exists|k: int|
                0 <= k < old(self)@.len() && old(self)@[k].id == id && final(self)@ == old(self)@.remove(k),
    {
        let k = match self.load_item(id) {
            Ok(k) => k,
            Err(e) => {
                return Err(e);
            },
        };
        self.invoices.remove(k);
        assert(forall|j: int| 0 <= j < self@.len() ==> #[trigger] self@[j] == old(self)@.remove(k as int)[j]);
        assert(forall|j: int| 0 <= j < self@.len() ==> (j < k ==> self@[j] == old(self)@[j]) && (j >= k ==> #[trigger] self@[j] == old(self)@[j + 1]));
        Ok(())
    }
}

/// A record added under a fresh identifier is the one record found by that
/// identifier, and identifiers stay distinct.
pub proof fn lemma_created_is_retrievable(s: Seq<Invoice>, x: Invoice)
    requires
        ids_unique(s),
        !has_id(s, x.id),
    ensures
        ids_unique(s.push(x)),
        has_id(s.push(x), x.id),
        forall|k: int| 0 <= k < s.len() + 1 && (#[trigger] s.push(x)[k]).id == x.id ==> s.push(x)[k] == x,
{
    let t = s.push(x);
    assert(t[s.len() as int] == x);
    assert(forall|k: int| 0 <= k < s.len() ==> t[k] == s[k]);
}

/// A create request without an amount is rejected.
pub proof fn lemma_create_needs_amount(req: InvoiceRequest)
    requires
        req.amount is None,
    ensures
        !req.complete(),
{
}

/// Updating with no date keeps the record's date.
pub proof fn lemma_update_keeps_date(req: InvoiceRequest, item: Invoice)
    requires
        req.date is None,
    ensures
        req.applied_to(item).date == item.date,
        req.applied_to(item).id == item.id,
{
}

/// Applying the same request twice gives what applying it once gives.
pub proof fn lemma_update_idempotent(req: InvoiceRequest, item: Invoice)
    ensures
        req.applied_to(req.applied_to(item)) == req.applied_to(item),
{
}

/// Once the record with an identifier is removed, no record has that
/// identifier, so removing it again finds nothing.
pub proof fn lemma_removed_is_gone(s: Seq<Invoice>, k: int)
    requires
        ids_unique(s),
        0 <= k < s.len(),
    ensures
        !has_id(s.remove(k), s[k].id),
        ids_unique(s.remove(k)),
{
    let t = s.remove(k);
    assert forall|j: int| 0 <= j < t.len() implies (#[trigger] t[j]).id != s[k].id by {
        if j < k {
            assert(t[j] == s[j]);
        } else {
            assert(t[j] == s[j + 1]);
        }
    }
    assert forall|i: int, j: int| 0 <= i < t.len() && 0 <= j < t.len() && i != j implies t[i].id != t[j].id by {
        let si = if i < k { i } else { i + 1 };
        let sj = if j < k { j } else { j + 1 };
        assert(t[i] == s[si] && t[j] == s[sj]);
    }
}

} // verus!
