use ledger_core::model::Date;
use ledger_core::row::{
    project_customer, project_customers, project_filtered_invoices, project_latest_invoices,
    BatchError, Fault, Field, FieldName, MappingError, Row,
};

const ADA_ID: &str = "67e55044-10b1-426f-9247-bb680e5fe0c8";
const INV_ID: &str = "936da01f-9abd-4d9d-80c7-02af85c822a8";

fn row(fields: Vec<(&str, Field)>) -> Row {
    Row { fields: fields.into_iter().map(|(k, v)| (k.to_string(), v)).collect() }
}

fn text(s: &str) -> Field {
    Field::Text(s.to_string())
}

fn customer_row() -> Row {
    row(vec![
        ("id", text(ADA_ID)),
        ("name", text("Ada")),
        ("email", text("ada@x.io")),
        ("image_url", Field::Null),
        ("total_invoices", Field::Int(2)),
        ("total_pending", Field::Int(100)),
    ])
}

fn invoice_row() -> Row {
    row(vec![
        ("id", text(INV_ID)),
        ("customer_id", text(ADA_ID)),
        ("amount", Field::Int(100)),
        ("status", text("pending")),
        ("date", text("2024-06-01")),
    ])
}

#[test]
fn customer_row_projects() {
    let c = project_customer(&customer_row()).unwrap();
    assert_eq!(c.id, 0x67e55044_10b1_426f_9247_bb680e5fe0c8);
    assert_eq!(c.name, "Ada");
    assert_eq!(c.image_url, None);
    assert_eq!(c.total_invoices, 2);
    assert_eq!(c.total_pending, Some(100));
    assert_eq!(c.total_paid, None);
}

#[test]
fn malformed_identifier_is_reported() {
    let r = row(vec![("id", text("not-a-uuid")), ("name", text("Ada"))]);
    assert_eq!(
        project_customer(&r).unwrap_err(),
        MappingError { field: FieldName::Id, fault: Fault::Malformed }
    );
}

#[test]
fn missing_field_is_reported() {
    let r = row(vec![("id", text(ADA_ID)), ("name", text("Ada")), ("email", Field::Int(3))]);
    assert_eq!(
        project_customer(&r).unwrap_err(),
        MappingError { field: FieldName::Email, fault: Fault::Missing }
    );
}

#[test]
fn batch_is_all_or_nothing() {
    let good = customer_row();
    let bad = row(vec![("id", text(ADA_ID))]);
    assert_eq!(project_customers(&vec![good.clone(), good.clone()]).unwrap().len(), 2);
    assert_eq!(
        project_customers(&vec![good.clone(), bad, good]).unwrap_err(),
        BatchError { row: 1, error: MappingError { field: FieldName::Name, fault: Fault::Missing } }
    );
}

#[test]
fn invoice_rows_project_with_date() {
    let cust = row(vec![("name", text("Ada")), ("email", text("ada@x.io")), ("image_url", text("/a.png"))]);
    let r = project_filtered_invoices(&vec![(invoice_row(), Some(cust.clone()))]).unwrap();
    assert_eq!(r[0].date, Date { year: 2024, month: 6, day: 1 });
    assert_eq!(r[0].status, "pending");
    assert_eq!(r[0].image_url, Some("/a.png".to_string()));
    let l = project_latest_invoices(&vec![(invoice_row(), Some(cust))]).unwrap();
    assert_eq!(l[0].amount, 100);
    assert_eq!(l[0].id, 0x936da01f_9abd_4d9d_80c7_02af85c822a8);
}

#[test]
fn invoice_row_without_customer_fails() {
    let e = project_latest_invoices(&vec![(invoice_row(), None)]).unwrap_err();
    assert_eq!(e.row, 0);
    assert_eq!(e.error, MappingError { field: FieldName::Customer, fault: Fault::Missing });
}

#[test]
fn bad_date_is_malformed() {
    let cust = row(vec![("name", text("Ada")), ("email", text("ada@x.io"))]);
    let mut inv = invoice_row();
    inv.fields[4].1 = text("2024-02-30");
    let e = project_filtered_invoices(&vec![(inv, Some(cust))]).unwrap_err();
    assert_eq!(e.error, MappingError { field: FieldName::Date, fault: Fault::Malformed });
}
