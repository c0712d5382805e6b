//! The free-text search predicate. A term matches a (customer, invoice) row
//! when the case-folded customer name or email contains the case-folded term,
//! or the invoice amount or `YYYY-MM-DD` date, as text, contains the term.
use vstd::prelude::*;
use crate::model::{Customer, Invoice};
use crate::text::{chars_of, contains_chars, contains_seq, int_chars, int_text, fold_case, lowercase};

verus! {

/// The query string of a search request; an absent query searches for everything.
#[derive(Clone, Debug)]
pub struct Queries {
    pub query: Option<String>,
}

impl Queries {
    /// The search term: the query, or the empty text when there is none.
    pub fn term(&self) -> (r: String)
        ensures
            r@ == match self.query {
                Some(q) => q@,
                None => Seq::<char>::empty(),
            },
    {
        match &self.query {
            Some(q) => q.clone(),
            None => String::new(),
        }
    }
}

/// A search term, kept both as given and case-folded.
pub struct SearchTerm {
    pub raw: Vec<char>,
    pub folded: Vec<char>,
}

impl SearchTerm {
    pub fn new(term: &str) -> (r: SearchTerm)
        ensures
            r.raw@ == term@,
            r.folded@ == fold_case(term@),
    {
        let lowered = lowercase(term);
        SearchTerm { raw: chars_of(term), folded: chars_of(lowered.as_str()) }
    }
}

/// The name or email, case-folded, contains the case-folded term.
pub open spec fn customer_matches(c: Customer, term: Seq<char>) -> bool {
    contains_seq(fold_case(c.name@), fold_case(term)) || contains_seq(
        fold_case(c.email@),
        fold_case(term),
    )
}

/// The amount or the date, as text, contains the term.
pub open spec fn invoice_matches(i: Invoice, term: Seq<char>) -> bool {
    contains_seq(int_text(i.amount as int), term) || contains_seq(i.date.text(), term)
}

/// The search predicate on one joined row.
pub open spec fn row_matches(c: Customer, i: Invoice, term: Seq<char>) -> bool {
    customer_matches(c, term) || invoice_matches(i, term)
}

/// Matching on text already case-folded: either folded field contains the folded term.
pub fn matches_folded(name: &Vec<char>, email: &Vec<char>, term: &Vec<char>) -> (r: bool)
    ensures
        r == (contains_seq(name@, term@) || contains_seq(email@, term@)),
{
    contains_chars(name, term) || contains_chars(email, term)
}

/// Whether the customer's name or email matches the term, ignoring case.
pub fn customer_matches_term(c: &Customer, term: &SearchTerm) -> (r: bool)
    requires
        term.folded@ == fold_case(term.raw@),
    ensures
        r == customer_matches(*c, term.raw@),
{
    let name = lowercase(c.name.as_str());
    let email = lowercase(c.email.as_str());
    matches_folded(&chars_of(name.as_str()), &chars_of(email.as_str()), &term.folded)
}

/// Whether the invoice's amount or date, as text, contains the term.
pub fn invoice_matches_term(i: &Invoice, term: &SearchTerm) -> (r: bool)
    requires
        i.wf(),
    ensures
        r == invoice_matches(*i, term.raw@),
{
    contains_chars(&int_chars(i.amount as i64), &term.raw) || contains_chars(
        &i.date.text_chars(),
        &term.raw,
    )
}

/// The empty term matches every customer.
pub proof fn lemma_empty_term_matches_customer(c: Customer)
    ensures
        customer_matches(c, Seq::empty()),
{
    let t = fold_case(Seq::<char>::empty());
    assert(fold_case(c.name@).subrange(0int, 0int + t.len()) =~= t);
}

} // verus!
