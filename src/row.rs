//! Projection of loosely-typed result rows into typed response records.
//! A row maps field names to values; every required field must be present
//! and of the expected shape, optional fields are absent when missing, and a
//! batch of rows is projected all or nothing.
use vstd::prelude::*;
use chrono::Datelike;
use crate::customer::CustomerResponse;
use crate::invoice::{GetAllLatestInvoiceResponse, GetFilteredInvoiceResponse};
use crate::model::Date;

verus! {

/// A loosely-typed value of a result row.
#[derive(Clone, Debug)]
pub enum Field {
    Null,
    Bool(bool),
    Int(i64),
    Text(String),
    /// Any other value: a fraction, a list or a nested record.
    Other,
}

/// A result row: field names with their values, first occurrence wins.
#[derive(Clone, Debug)]
pub struct Row {
    pub fields: Vec<(String, Field)>,
}

/// The fields that a projection reads.
#[derive(Clone, Copy, Debug, PartialEq, Eq, Structural)]
pub enum FieldName {
    Id,
    CustomerId,
    Name,
    Email,
    TotalInvoices,
    Amount,
    Date,
    Status,
    /// The joined customer row itself.
    Customer,
}

/// What is wrong with a field.
#[derive(Clone, Copy, Debug, PartialEq, Eq, Structural)]
pub enum Fault {
    Missing,
    Malformed,
}

/// A row that could not be projected, and the field at fault.
#[derive(Clone, Copy, Debug, PartialEq, Eq, Structural)]
pub struct MappingError {
    pub field: FieldName,
    pub fault: Fault,
}

/// A batch that could not be projected: the first failing row and its error.
#[derive(Clone, Copy, Debug, PartialEq, Eq, Structural)]
pub struct BatchError {
    pub row: usize,
    pub error: MappingError,
}

/// The identifier `uuid::Uuid::parse_str` reads from a text, as a 128-bit value.
pub uninterp spec fn uuid_of(s: Seq<char>) -> Option<u128>;

/// Relies on `uuid::Uuid::parse_str`, read back with `as_u128`: the
/// identifier that the text spells, if it spells one.
#[verifier::external_body]
pub(crate) fn parse_uuid(s: &str) -> (r: Option<u128>)
    ensures
        r == uuid_of(s@),
{
    uuid::Uuid::parse_str(s).ok().map(|u| u.as_u128())
}

/// The (year, month, day) that `chrono::NaiveDate::parse_from_str` reads
/// from a text with the format `%Y-%m-%d`.
pub uninterp spec fn ymd_of(s: Seq<char>) -> Option<(i32, u32, u32)>;

/// Relies on `chrono::NaiveDate::parse_from_str` with `%Y-%m-%d`, read back
/// with `Datelike::{year, month, day}`; months range over 1 to 12 and days
/// over 1 to 31.
#[verifier::external_body]
pub(crate) fn parse_ymd(s: &str) -> (r: Option<(i32, u32, u32)>)
    ensures
        r == ymd_of(s@),
        r matches Some((y, m, d)) ==> 1 <= m <= 12 && 1 <= d <= 31,
{
    chrono::NaiveDate::parse_from_str(s, "%Y-%m-%d").ok().map(|d| (d.year(), d.month(), d.day()))
}

/// The value of the first field named `key`.
pub open spec fn field_of(fields: Seq<(String, Field)>, key: Seq<char>) -> Option<Field>
    decreases fields.len(),
{
    if fields.len() == 0 {
        None
    } else if fields[0].0@ == key {
        Some(fields[0].1)
    } else {
        field_of(fields.drop_first(), key)
    }
}

/// The field named `key` as text, when it is text.
pub open spec fn text_of(row: Row, key: Seq<char>) -> Option<String> {
    match field_of(row.fields@, key) {
        Some(Field::Text(s)) => Some(s),
        _ => None,
    }
}

/// The field named `key` as an integer, when it is one.
pub open spec fn int_of(row: Row, key: Seq<char>) -> Option<i64> {
    match field_of(row.fields@, key) {
        Some(Field::Int(n)) => Some(n),
        _ => None,
    }
}

fn lookup(row: &Row, key: &str) -> (r: Option<usize>)
    ensures
        match r {
            Some(k) => k < row.fields@.len() && field_of(row.fields@, key@) == Some(
                row.fields@[k as int].1,
            ),
            None => field_of(row.fields@, key@) is None,
        },
{
    let wanted = key.to_owned();
    let n = row.fields.len();
    let mut k: usize = 0;
    assert(row.fields@.skip(0) =~= row.fields@);
    while k < n
        invariant
            n == row.fields@.len(),
            k <= n,
            wanted@ == key@,
            field_of(row.fields@, key@) == field_of(row.fields@.skip(k as int), key@),
        decreases n - k,
    {
        assert(row.fields@.skip(k as int).drop_first() =~= row.fields@.skip(k + 1));
        assert(row.fields@.skip(k as int)[0] == row.fields@[k as int]);
        if row.fields[k].0 == wanted {
            return Some(k);
        }
        k = k + 1;
    }
    None
}

/// The field named `key`, when it is text.
pub fn text_field(row: &Row, key: &str) -> (r: Option<String>)
    ensures
        r == text_of(*row, key@),
{
    match lookup(row, key) {
        Some(k) => match &row.fields[k].1 {
            Field::Text(s) => Some(s.clone()),
            _ => None,
        },
        None => None,
    }
}

/// The field named `key`, when it is an integer.
pub fn int_field(row: &Row, key: &str) -> (r: Option<i64>)
    ensures
        r == int_of(*row, key@),
{
    match lookup(row, key) {
        Some(k) => match &row.fields[k].1 {
            Field::Int(n) => Some(*n),
            _ => None,
        },
        None => None,
    }
}

/// A required text field holding an identifier.
pub open spec fn uuid_field(row: Row, key: Seq<char>, name: FieldName) -> Result<u128, MappingError> {
    match text_of(row, key) {
        None => Err(MappingError { field: name, fault: Fault::Missing }),
        Some(s) => match uuid_of(s@) {
            None => Err(MappingError { field: name, fault: Fault::Malformed }),
            Some(v) => Ok(v),
        },
    }
}

/// A required text field.
pub open spec fn required_text(row: Row, key: Seq<char>, name: FieldName) -> Result<String, MappingError> {
    match text_of(row, key) {
        None => Err(MappingError { field: name, fault: Fault::Missing }),
        Some(s) => Ok(s),
    }
}

/// A required integer field.
pub open spec fn required_int(row: Row, key: Seq<char>, name: FieldName) -> Result<i64, MappingError> {
    match int_of(row, key) {
        None => Err(MappingError { field: name, fault: Fault::Missing }),
        Some(n) => Ok(n),
    }
}

/// A required `YYYY-MM-DD` date field.
pub open spec fn date_field(row: Row, key: Seq<char>) -> Result<Date, MappingError> {
    match text_of(row, key) {
        None => Err(MappingError { field: FieldName::Date, fault: Fault::Missing }),
        Some(s) => match ymd_of(s@) {
            Some((y, m, d)) => {
                let date = Date { year: y, month: m, day: d };
                if date.wf() {
                    Ok(date)
                } else {
                    Err(MappingError { field: FieldName::Date, fault: Fault::Malformed })
                }
            },
            None => Err(MappingError { field: FieldName::Date, fault: Fault::Malformed }),
        },
    }
}

fn read_uuid(row: &Row, key: &str, name: FieldName) -> (r: Result<u128, MappingError>)
    ensures
        r == uuid_field(*row, key@, name),
{
    match text_field(row, key) {
        None => Err(MappingError { field: name, fault: Fault::Missing }),
        Some(s) => match parse_uuid(s.as_str()) {
            None => Err(MappingError { field: name, fault: Fault::Malformed }),
            Some(v) => Ok(v),
        },
    }
}

fn read_text(row: &Row, key: &str, name: FieldName) -> (r: Result<String, MappingError>)
    ensures
        r == required_text(*row, key@, name),
{
    match text_field(row, key) {
        None => Err(MappingError { field: name, fault: Fault::Missing }),
        Some(s) => Ok(s),
    }
}

fn read_int(row: &Row, key: &str, name: FieldName) -> (r: Result<i64, MappingError>)
    ensures
        r == required_int(*row, key@, name),
{
    match int_field(row, key) {
        None => Err(MappingError { field: name, fault: Fault::Missing }),
        Some(n) => Ok(n),
    }
}

fn read_date(row: &Row, key: &str) -> (r: Result<Date, MappingError>)
    ensures
        r == date_field(*row, key@),
{
    match text_field(row, key) {
        None => Err(MappingError { field: FieldName::Date, fault: Fault::Missing }),
        Some(s) => match parse_ymd(s.as_str()) {
            Some((y, m, d)) => {
                let date = Date { year: y, month: m, day: d };
                if date.is_valid() {
                    Ok(date)
                } else {
                    Err(MappingError { field: FieldName::Date, fault: Fault::Malformed })
                }
            },
            None => Err(MappingError { field: FieldName::Date, fault: Fault::Malformed }),
        },
    }
}

/// The customer search result a row spells: `id`, `name`, `email` and
/// `total_invoices` are required, in that order; `image_url`, `total_pending`
/// and `total_paid` are absent when missing.
pub open spec fn customer_projection(row: Row) -> Result<CustomerResponse, MappingError> {
    match uuid_field(row, "id"@, FieldName::Id) {
        Err(e) => Err(e),
        Ok(id) => match required_text(row, "name"@, FieldName::Name) {
            Err(e) => Err(e),
            Ok(name) => match required_text(row, "email"@, FieldName::Email) {
                Err(e) => Err(e),
                Ok(email) => match required_int(row, "total_invoices"@, FieldName::TotalInvoices) {
                    Err(e) => Err(e),
                    Ok(total) => Ok(
                        CustomerResponse {
                            id,
                            name,
                            email,
                            image_url: text_of(row, "image_url"@),
                            total_invoices: total,
                            total_pending: int_of(row, "total_pending"@),
                            total_paid: int_of(row, "total_paid"@),
                        },
                    ),
                },
            },
        },
    }
}

/// The invoice search result an invoice row and its customer row spell: the
/// customer row, then `id`, `customer_id`, `name`, `email`, `amount`, `date`
/// and `status` are required, in that order; `image_url` is optional.
pub open spec fn filtered_projection(inv: Row, cust: Option<Row>) -> Result<
    GetFilteredInvoiceResponse,
    MappingError,
> {
    match cust {
        None => Err(MappingError { field: FieldName::Customer, fault: Fault::Missing }),
        Some(c) => match uuid_field(inv, "id"@, FieldName::Id) {
            Err(e) => Err(e),
            Ok(id) => match uuid_field(inv, "customer_id"@, FieldName::CustomerId) {
                Err(e) => Err(e),
                Ok(customer_id) => match required_text(c, "name"@, FieldName::Name) {
                    Err(e) => Err(e),
                    Ok(name) => match required_text(c, "email"@, FieldName::Email) {
                        Err(e) => Err(e),
                        Ok(email) => match required_int(inv, "amount"@, FieldName::Amount) {
                            Err(e) => Err(e),
                            Ok(amount) => match date_field(inv, "date"@) {
                                Err(e) => Err(e),
                                Ok(date) => match required_text(inv, "status"@, FieldName::Status) {
                                    Err(e) => Err(e),
                                    Ok(status) => Ok(
                                        GetFilteredInvoiceResponse {
                                            id,
                                            customer_id,
                                            name,
                                            email,
                                            image_url: text_of(c, "image_url"@),
                                            amount,
                                            date,
                                            status,
                                        },
                                    ),
                                },
                            },
                        },
                    },
                },
            },
        },
    }
}

/// The latest-invoices entry an invoice row and its customer row spell: the
/// customer row, then `id`, `name`, `email` and `amount` are required;
/// `image_url` is optional.
pub open spec fn latest_projection(inv: Row, cust: Option<Row>) -> Result<
    GetAllLatestInvoiceResponse,
    MappingError,
> {
    match cust {
        None => Err(MappingError { field: FieldName::Customer, fault: Fault::Missing }),
        Some(c) => match uuid_field(inv, "id"@, FieldName::Id) {
            Err(e) => Err(e),
            Ok(id) => match required_text(c, "name"@, FieldName::Name) {
                Err(e) => Err(e),
                Ok(name) => match required_text(c, "email"@, FieldName::Email) {
                    Err(e) => Err(e),
                    Ok(email) => match required_int(inv, "amount"@, FieldName::Amount) {
                        Err(e) => Err(e),
                        Ok(amount) => Ok(
                            GetAllLatestInvoiceResponse {
                                id,
                                name,
                                image_url: text_of(c, "image_url"@),
                                email,
                                amount,
                            },
                        ),
                    },
                },
            },
        },
    }
}

/// Projects one customer search row.
pub fn project_customer(row: &Row) -> (r: Result<CustomerResponse, MappingError>)
    ensures
        r == customer_projection(*row),
{
    let id = match read_uuid(row, "id", FieldName::Id) {
        Ok(v) => v,
        Err(e) => {
            return Err(e);
        },
    };
    let name = match read_text(row, "name", FieldName::Name) {
        Ok(v) => v,
        Err(e) => {
            return Err(e);
        },
    };
    let email = match read_text(row, "email", FieldName::Email) {
        Ok(v) => v,
        Err(e) => {
            return Err(e);
        },
    };
    let total_invoices = match read_int(row, "total_invoices", FieldName::TotalInvoices) {
        Ok(v) => v,
        Err(e) => {
            return Err(e);
        },
    };
    Ok(
        CustomerResponse {
            id,
            name,
            email,
            image_url: text_field(row, "image_url"),
            total_invoices,
            total_pending: int_field(row, "total_pending"),
            total_paid: int_field(row, "total_paid"),
        },
    )
}

/// Projects one invoice search row with its customer row.
pub fn project_filtered_invoice(inv: &Row, cust: &Option<Row>) -> (r: Result<
    GetFilteredInvoiceResponse,
    MappingError,
>)
    ensures
        r == filtered_projection(*inv, *cust),
{
    let c = match cust {
        Some(c) => c,
        None => {
            return Err(MappingError { field: FieldName::Customer, fault: Fault::Missing });
        },
    };
    let id = match read_uuid(inv, "id", FieldName::Id) {
        Ok(v) => v,
        Err(e) => {
            return Err(e);
        },
    };
    let customer_id = match read_uuid(inv, "customer_id", FieldName::CustomerId) {
        Ok(v) => v,
        Err(e) => {
            return Err(e);
        },
    };
    let name = match read_text(c, "name", FieldName::Name) {
        Ok(v) => v,
        Err(e) => {
            return Err(e);
        },
    };
    let email = match read_text(c, "email", FieldName::Email) {
        Ok(v) => v,
        Err(e) => {
            return Err(e);
        },
    };
    let amount = match read_int(inv, "amount", FieldName::Amount) {
        Ok(v) => v,
        Err(e) => {
            return Err(e);
        },
    };
    let date = match read_date(inv, "date") {
        Ok(v) => v,
        Err(e) => {
            return Err(e);
        },
    };
    let status = match read_text(inv, "status", FieldName::Status) {
        Ok(v) => v,
        Err(e) => {
            return Err(e);
        },
    };
    Ok(
        GetFilteredInvoiceResponse {
            id,
            customer_id,
            name,
            email,
            image_url: text_field(c, "image_url"),
            amount,
            date,
            status,
        },
    )
}

/// Projects one latest-invoices row with its customer row.
pub fn project_latest_invoice(inv: &Row, cust: &Option<Row>) -> (r: Result<
    GetAllLatestInvoiceResponse,
    MappingError,
>)
    ensures
        r == latest_projection(*inv, *cust),
{
    let c = match cust {
        Some(c) => c,
        None => {
            return Err(MappingError { field: FieldName::Customer, fault: Fault::Missing });
        },
    };
    let id = match read_uuid(inv, "id", FieldName::Id) {
        Ok(v) => v,
        Err(e) => {
            return Err(e);
        },
    };
    let name = match read_text(c, "name", FieldName::Name) {
        Ok(v) => v,
        Err(e) => {
            return Err(e);
        },
    };
    let email = match read_text(c, "email", FieldName::Email) {
        Ok(v) => v,
        Err(e) => {
            return Err(e);
        },
    };
    let amount = match read_int(inv, "amount", FieldName::Amount) {
        Ok(v) => v,
        Err(e) => {
            return Err(e);
        },
    };
    Ok(GetAllLatestInvoiceResponse { id, name, image_url: text_field(c, "image_url"), email, amount })
}

/// Projects a batch of customer search rows all or nothing: every row projected in order,
/// or the first row that fails with its error and nothing else.
pub fn project_customers(rows: &Vec<Row>) -> (r: Result<Vec<CustomerResponse>, BatchError>)
    ensures
        match r {
            Ok(v) => v@.len() == rows@.len() && forall|k: int|
                0 <= k < rows@.len() ==> customer_projection(rows@[k]) == Ok::<CustomerResponse, MappingError>(#[trigger] v@[k]),
            Err(b) => b.row < rows@.len() && customer_projection(rows@[b.row as int]) == Err::<CustomerResponse, MappingError>(b.error)
                && forall|k: int| 0 <= k < b.row ==> (customer_projection(rows@[k])) is Ok,
        },
{
    let n = rows.len();
    let mut out: Vec<CustomerResponse> = Vec::new();
    let mut k: usize = 0;
    while k < n
        invariant
            n == rows@.len(),
            k <= n,
            out@.len() == k,
            forall|j: int| 0 <= j < k ==> customer_projection(rows@[j]) == Ok::<CustomerResponse, MappingError>(#[trigger] out@[j]),
        decreases n - k,
    {
        match project_customer(&rows[k]) {
            Ok(x) => {
                out.push(x);
            },
            Err(e) => {
                assert forall|j: int| 0 <= j < k implies (customer_projection(rows@[j])) is Ok by {
                    assert(customer_projection(rows@[j]) == Ok::<CustomerResponse, MappingError>(out@[j]));
                }
                return Err(BatchError { row: k, error: e });
            },
        }
        k = k + 1;
    }
    Ok(out)
}

/// Projects a batch of invoice search rows, each with its customer row all or nothing: every row projected in order,
/// or the first row that fails with its error and nothing else.
pub fn project_filtered_invoices(rows: &Vec<(Row, Option<Row>)>) -> (r: Result<Vec<GetFilteredInvoiceResponse>, BatchError>)
    ensures
        match r {
            Ok(v) => v@.len() == rows@.len() && forall|k: int|
                0 <= k < rows@.len() ==> filtered_projection(rows@[k].0, rows@[k].1) == Ok::<GetFilteredInvoiceResponse, MappingError>(#[trigger] v@[k]),
            Err(b) => b.row < rows@.len() && filtered_projection(rows@[b.row as int].0, rows@[b.row as int].1) == Err::<GetFilteredInvoiceResponse, MappingError>(b.error)
                && forall|k: int| 0 <= k < b.row ==> (filtered_projection(rows@[k].0, rows@[k].1)) is Ok,
        },
{
    let n = rows.len();
    let mut out: Vec<GetFilteredInvoiceResponse> = Vec::new();
    let mut k: usize = 0;
    while k < n
        invariant
            n == rows@.len(),
            k <= n,
            out@.len() == k,
            forall|j: int| 0 <= j < k ==> filtered_projection(rows@[j].0, rows@[j].1) == Ok::<GetFilteredInvoiceResponse, MappingError>(#[trigger] out@[j]),
        decreases n - k,
    {
        match project_filtered_invoice(&rows[k].0, &rows[k].1) {
            Ok(x) => {
                out.push(x);
            },
            Err(e) => {
                assert forall|j: int| 0 <= j < k implies (filtered_projection(rows@[j].0, rows@[j].1)) is Ok by {
                    assert(filtered_projection(rows@[j].0, rows@[j].1) == Ok::<GetFilteredInvoiceResponse, MappingError>(out@[j]));
                }
                return Err(BatchError { row: k, error: e });
            },
        }
        k = k + 1;
    }
    Ok(out)
}

/// Projects a batch of latest-invoices rows, each with its customer row all or nothing: every row projected in order,
/// or the first row that fails with its error and nothing else.
pub fn project_latest_invoices(rows: &Vec<(Row, Option<Row>)>) -> (r: Result<Vec<GetAllLatestInvoiceResponse>, BatchError>)
    ensures
        match r {
            Ok(v) => v@.len() == rows@.len() && forall|k: int|
                0 <= k < rows@.len() ==> latest_projection(rows@[k].0, rows@[k].1) == Ok::<GetAllLatestInvoiceResponse, MappingError>(#[trigger] v@[k]),
            Err(b) => b.row < rows@.len() && latest_projection(rows@[b.row as int].0, rows@[b.row as int].1) == Err::<GetAllLatestInvoiceResponse, MappingError>(b.error)
                && forall|k: int| 0 <= k < b.row ==> (latest_projection(rows@[k].0, rows@[k].1)) is Ok,
        },
{
    let n = rows.len();
    let mut out: Vec<GetAllLatestInvoiceResponse> = Vec::new();
    let mut k: usize = 0;
    while k < n
        invariant
            n == rows@.len(),
            k <= n,
            out@.len() == k,
            forall|j: int| 0 <= j < k ==> latest_projection(rows@[j].0, rows@[j].1) == Ok::<GetAllLatestInvoiceResponse, MappingError>(#[trigger] out@[j]),
        decreases n - k,
    {
        match project_latest_invoice(&rows[k].0, &rows[k].1) {
            Ok(x) => {
                out.push(x);
            },
            Err(e) => {
                assert forall|j: int| 0 <= j < k implies (latest_projection(rows@[j].0, rows@[j].1)) is Ok by {
                    assert(latest_projection(rows@[j].0, rows@[j].1) == Ok::<GetAllLatestInvoiceResponse, MappingError>(out@[j]));
                }
                return Err(BatchError { row: k, error: e });
            },
        }
        k = k + 1;
    }
    Ok(out)
}

} // verus!
