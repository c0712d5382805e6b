use ledger_core::command::{InvoiceBook, InvoiceError, InvoiceRequest};
use ledger_core::model::{Customer, Date};

fn default_date() -> Date {
    Date { year: 2024, month: 1, day: 1 }
}

fn customers() -> Vec<Customer> {
    vec![
        Customer { id: 7, name: "Ada".to_string(), email: "ada@x.io".to_string(), image_url: None },
        Customer { id: 8, name: "Lee".to_string(), email: "lee@x.io".to_string(), image_url: None },
    ]
}

fn full_request() -> InvoiceRequest {
    InvoiceRequest { customer_id: Some(7), amount: Some(100), status: Some("pending".to_string()), date: None }
}

#[test]
fn create_without_amount_fails() {
    let mut book = InvoiceBook::new(default_date());
    let req = InvoiceRequest { amount: None, ..full_request() };
    assert_eq!(book.create(&customers(), &req).unwrap_err(), InvoiceError::ValidationError);
    assert_eq!(book.invoices.len(), 0);
}

#[test]
fn created_invoice_is_retrievable() {
    let mut book = InvoiceBook::new(default_date());
    let x = book.create(&customers(), &full_request()).unwrap();
    let found = book.get_by_id(x.id).unwrap();
    assert_eq!(found.amount, 100);
    assert_eq!(found.customer_id, 7);
    assert_eq!(found.status, "pending");
    assert_eq!(found.date, default_date());
    let y = book.create(&customers(), &full_request()).unwrap();
    assert_ne!(x.id, y.id);
    assert!(book.get_by_id(12345).is_none());
}

#[test]
fn update_missing_is_not_found() {
    let mut book = InvoiceBook::new(default_date());
    assert_eq!(book.update(&customers(), 99, &full_request()).unwrap_err(), InvoiceError::NotFound);
}

#[test]
fn update_keeps_date_when_absent() {
    let mut book = InvoiceBook::new(default_date());
    let dated = InvoiceRequest { date: Some(Date { year: 2023, month: 5, day: 9 }), ..full_request() };
    let x = book.create(&customers(), &dated).unwrap();
    let req = InvoiceRequest { status: Some("paid".to_string()), ..full_request() };
    let y = book.update(&customers(), x.id, &req).unwrap();
    assert_eq!(y.status, "paid");
    assert_eq!(y.date, Date { year: 2023, month: 5, day: 9 });
    assert_eq!(book.get_by_id(x.id).unwrap().status, "paid");
}

#[test]
fn partial_update_is_rejected() {
    let mut book = InvoiceBook::new(default_date());
    let x = book.create(&customers(), &full_request()).unwrap();
    let req = InvoiceRequest { customer_id: None, ..full_request() };
    assert_eq!(book.update(&customers(), x.id, &req).unwrap_err(), InvoiceError::ValidationError);
}

#[test]
fn delete_twice() {
    let mut book = InvoiceBook::new(default_date());
    let x = book.create(&customers(), &full_request()).unwrap();
    assert_eq!(book.remove(x.id), Ok(()));
    assert_eq!(book.remove(x.id), Err(InvoiceError::NotFound));
    assert!(book.get_by_id(x.id).is_none());
}

#[test]
fn create_with_unknown_customer_fails() {
    let mut book = InvoiceBook::new(default_date());
    let req = InvoiceRequest { customer_id: Some(99), ..full_request() };
    assert_eq!(book.create(&customers(), &req).unwrap_err(), InvoiceError::UnknownCustomer);
    assert_eq!(book.invoices.len(), 0);
}

#[test]
fn complete_update_replaces_only_that_invoice() {
    let mut book = InvoiceBook::new(default_date());
    let x = book.create(&customers(), &full_request()).unwrap();
    let y = book.create(&customers(), &full_request()).unwrap();
    let req = InvoiceRequest {
        customer_id: Some(8),
        amount: Some(-5),
        status: Some("paid".to_string()),
        date: Some(Date { year: 2024, month: 2, day: 29 }),
    };
    let first = book.update(&customers(), x.id, &req).unwrap();
    let second = book.update(&customers(), x.id, &req).unwrap();
    assert_eq!(first.customer_id, 8);
    assert_eq!(first.amount, -5);
    assert_eq!(first.date, Date { year: 2024, month: 2, day: 29 });
    assert_eq!(second.amount, first.amount);
    assert_eq!(second.status, first.status);
    assert_eq!(book.get_by_id(y.id).unwrap().amount, 100);
    let unknown = InvoiceRequest { customer_id: Some(99), ..full_request() };
    assert_eq!(book.update(&customers(), x.id, &unknown).unwrap_err(), InvoiceError::UnknownCustomer);
}

#[test]
fn calendar_validity() {
    assert!(Date { year: 2024, month: 2, day: 29 }.is_valid());
    assert!(!Date { year: 2023, month: 2, day: 29 }.is_valid());
    assert!(!Date { year: 1900, month: 2, day: 29 }.is_valid());
    assert!(Date { year: 2000, month: 2, day: 29 }.is_valid());
    assert!(!Date { year: 2024, month: 4, day: 31 }.is_valid());
    assert!(!Date { year: 10000, month: 1, day: 1 }.is_valid());
}
