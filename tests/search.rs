use ledger_core::customer::{get_count as customer_count, get_filtered as search_customers};
use ledger_core::filter::Queries;
use ledger_core::invoice::{
    get_all_latest, get_count as invoice_count, get_filtered as search_invoices, get_pages,
    get_status_count, JoinError,
};
use ledger_core::model::{Customer, Date, Invoice};

fn customer(id: u128, name: &str, email: &str) -> Customer {
    Customer { id, name: name.to_string(), email: email.to_string(), image_url: None }
}

fn invoice(id: u128, customer_id: u128, amount: i32, status: &str, date: (i32, u32, u32)) -> Invoice {
    Invoice {
        id,
        customer_id,
        amount,
        status: status.to_string(),
        date: Date { year: date.0, month: date.1, day: date.2 },
    }
}

fn sample() -> (Vec<Customer>, Vec<Invoice>) {
    let customers = vec![
        customer(1, "Delba", "delba@oliveira.com"),
        customer(2, "Ada", "ada@x.io"),
        customer(3, "Lee", "lee@robinson.com"),
    ];
    let invoices = vec![
        invoice(10, 2, 100, "pending", (2024, 6, 1)),
        invoice(11, 2, 50, "paid", (2024, 7, 3)),
        invoice(12, 1, 7777, "paid", (2023, 1, 15)),
        invoice(13, 1, -20, "draft", (2024, 7, 3)),
    ];
    (customers, invoices)
}

#[test]
fn ada_example_aggregates() {
    let customers = vec![customer(1, "Ada", "ada@x.io")];
    let invoices = vec![
        invoice(10, 1, 100, "pending", (2024, 6, 1)),
        invoice(11, 1, 50, "paid", (2024, 6, 2)),
    ];
    let r = search_customers(&customers, &invoices, "");
    assert_eq!(r.len(), 1);
    assert_eq!(r[0].name, "Ada");
    assert_eq!(r[0].total_invoices, 2);
    assert_eq!(r[0].total_pending, Some(100));
    assert_eq!(r[0].total_paid, Some(50));
}

#[test]
fn empty_term_returns_all_customers_by_name() {
    let (customers, invoices) = sample();
    let r = search_customers(&customers, &invoices, "");
    let names: Vec<&str> = r.iter().map(|c| c.name.as_str()).collect();
    assert_eq!(names, vec!["Ada", "Delba", "Lee"]);
}

#[test]
fn totals_absent_without_status_rows() {
    let (customers, invoices) = sample();
    let r = search_customers(&customers, &invoices, "");
    let lee = r.iter().find(|c| c.id == 3).unwrap();
    assert_eq!(lee.total_invoices, 0);
    assert_eq!(lee.total_pending, None);
    assert_eq!(lee.total_paid, None);
    let delba = r.iter().find(|c| c.id == 1).unwrap();
    assert_eq!(delba.total_invoices, 2);
    assert_eq!(delba.total_pending, None);
    assert_eq!(delba.total_paid, Some(7777));
}

#[test]
fn customer_search_ignores_case() {
    let (customers, invoices) = sample();
    let r = search_customers(&customers, &invoices, "ROBINSON");
    assert_eq!(r.len(), 1);
    assert_eq!(r[0].id, 3);
}

#[test]
fn customer_search_by_invoice_amount() {
    let (customers, invoices) = sample();
    let r = search_customers(&customers, &invoices, "777");
    assert_eq!(r.len(), 1);
    assert_eq!(r[0].id, 1);
    assert_eq!(r[0].total_invoices, 2);
}

#[test]
fn unmatched_term_gives_empty_results() {
    let (customers, invoices) = sample();
    assert!(search_customers(&customers, &invoices, "zzz-nothing").is_empty());
    assert_eq!(search_invoices(&customers, &invoices, "zzz-nothing").unwrap().len(), 0);
    assert_eq!(get_pages(&customers, &invoices, "zzz-nothing"), 0);
}

#[test]
fn empty_term_returns_all_invoices_by_date_desc() {
    let (customers, invoices) = sample();
    let r = search_invoices(&customers, &invoices, "").unwrap();
    let ids: Vec<u128> = r.iter().map(|i| i.id).collect();
    assert_eq!(ids, vec![11, 13, 10, 12]);
    assert_eq!(r[0].name, "Ada");
    assert_eq!(r[0].status, "paid");
    assert_eq!(r[0].date, Date { year: 2024, month: 7, day: 3 });
}

#[test]
fn invoice_search_by_date_text() {
    let (customers, invoices) = sample();
    let r = search_invoices(&customers, &invoices, "2024-07").unwrap();
    let ids: Vec<u128> = r.iter().map(|i| i.id).collect();
    assert_eq!(ids, vec![11, 13]);
    assert_eq!(get_pages(&customers, &invoices, "2024-07"), 2);
}

#[test]
fn invoice_search_by_negative_amount_text() {
    let (customers, invoices) = sample();
    let r = search_invoices(&customers, &invoices, "-20").unwrap();
    assert_eq!(r.len(), 1);
    assert_eq!(r[0].amount, -20);
}

#[test]
fn invoice_without_customer_faults() {
    let (customers, mut invoices) = sample();
    invoices.push(invoice(20, 99, 5, "paid", (2022, 2, 2)));
    assert_eq!(
        search_invoices(&customers, &invoices, "").unwrap_err(),
        JoinError::MissingCustomer { invoice_id: 20 }
    );
    assert!(get_all_latest(&customers, &invoices).is_err());
    assert_eq!(get_pages(&customers, &invoices, ""), 4);
}

#[test]
fn latest_lists_all_by_date() {
    let (customers, invoices) = sample();
    let r = get_all_latest(&customers, &invoices).unwrap();
    let ids: Vec<u128> = r.iter().map(|i| i.id).collect();
    assert_eq!(ids, vec![11, 13, 10, 12]);
    assert_eq!(r[3].email, "delba@oliveira.com");
}

#[test]
fn counts() {
    let (customers, invoices) = sample();
    assert_eq!(customer_count(&customers), 3);
    assert_eq!(invoice_count(&invoices), 4);
    let s = get_status_count(&invoices);
    assert_eq!(s.pending, 1);
    assert_eq!(s.paid, 2);
}

#[test]
fn queries_default_to_empty_term() {
    assert_eq!(Queries { query: None }.term(), "");
    assert_eq!(Queries { query: Some("ada".to_string()) }.term(), "ada");
}

#[test]
fn extreme_amount_text_matches() {
    let customers = vec![customer(1, "Ada", "ada@x.io")];
    let invoices = vec![invoice(10, 1, i32::MIN, "pending", (9999, 12, 31)), invoice(11, 1, i32::MAX, "pending", (0, 1, 1))];
    let r = search_invoices(&customers, &invoices, "-2147483648").unwrap();
    assert_eq!(r.len(), 1);
    assert_eq!(r[0].id, 10);
    let r = search_invoices(&customers, &invoices, "0000-01-01").unwrap();
    assert_eq!(r.len(), 1);
    assert_eq!(r[0].id, 11);
    let c = search_customers(&customers, &invoices, "");
    assert_eq!(c[0].total_pending, Some(-1));
}
