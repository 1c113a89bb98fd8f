use nhw_core::access::{Accounts, Operation, Role, Session};
use nhw_core::catalog::{CustomerDetails, Pricing, ProductDetails};
use nhw_core::ledger::StockReason;
use nhw_core::settings::Settings;
use nhw_core::snapshot::{Backups, Dataset, SnapshotError, SnapshotKind, SCHEMA_VERSION};
use nhw_core::store::{InvoiceRequest, RequestLine, Store};

fn contact() -> CustomerDetails {
    CustomerDetails { email: None, address: Some(String::from("12 Market Road")), gstin: None }
}

fn details() -> ProductDetails {
    ProductDetails {
        category: String::from("General"),
        hsn_code: String::from("3401"),
        unit: String::from("Nos"),
        package_size: None,
        batch_number: None,
        expiry_date: None,
    }
}

fn stocked() -> Dataset {
    let mut s = Store::new();
    s.add_customer(String::from("Asha"), String::from("1"), contact()).unwrap();
    s.add_sales_person(String::from("Ravi")).unwrap();
    let p = Pricing { mrp: 500, discount_bp: 0, selling_price: 500, purchase_price: 300, gst_rate_bp: 1200, min_stock_level: 1 };
    s.add_product(String::from("Tea"), details(), &p).unwrap();
    s.adjust_stock(1, 8, StockReason::Opening, None, 1).unwrap();
    let accounts = Accounts::new(String::from("root"), String::from("h-root"));
    Dataset { store: s, settings: Settings::new(), accounts }
}

fn sell(s: &mut Store, number: &str, qty: i64) {
    let req = InvoiceRequest {
        invoice_number: String::from(number),
        customer_id: 1,
        sales_person_id: 1,
        is_gst_bill: true,
        same_state: false,
        lines: vec![RequestLine { product_id: 1, quantity: qty }],
    };
    s.create_invoice(&req, 2).unwrap();
}

fn admin(d: &mut Dataset) -> Session {
    d.accounts.authenticate(&String::from("root"), &String::from("h-root"), 3).unwrap()
}

#[test]
fn restore_brings_back_every_table() {
    let mut d = stocked();
    let root = admin(&mut d);
    d.settings.upsert(String::from("shop"), String::from("NHW"), &root).unwrap();
    sell(&mut d.store, "A", 2);
    let snap = d.create_snapshot(SnapshotKind::Manual, 10);
    assert_eq!(snap.schema_version, SCHEMA_VERSION);
    assert_eq!(snap.size, 1 + 1 + 1 + 2 + 1 + 1 + 1);
    assert_eq!(snap.kind, SnapshotKind::Manual);
    sell(&mut d.store, "B", 3);
    d.store.add_customer(String::from("Late"), String::from("2"), contact()).unwrap();
    d.settings.upsert(String::from("shop"), String::from("Other"), &root).unwrap();
    d.settings.upsert(String::from("extra"), String::from("1"), &root).unwrap();
    d.accounts.add(&root, String::from("clerk"), String::from("h"), Role::User).unwrap();
    assert_eq!(d.store.current_stock(1), Some(3));
    assert_eq!(d.restore(&snap, &root), Ok(()));
    assert_eq!(d.store.current_stock(1), Some(6));
    assert_eq!(d.store.invoices().len(), 1);
    assert_eq!(d.store.invoices()[0].invoice_number, "A");
    assert_eq!(d.store.ledger().entries.len(), 2);
    assert_eq!(d.store.catalog().customers.len(), 1);
    assert_eq!(d.store.catalog().products[0].name, "Tea");
    assert_eq!(d.settings.entries().len(), 1);
    assert_eq!(d.settings.get(&String::from("shop")), Some(String::from("NHW")));
    assert_eq!(d.accounts.accounts().len(), 1);
    assert_eq!(d.accounts.accounts()[0].last_login, Some(3));
    assert!(d.is_consistent());
}

#[test]
fn restore_needs_an_administrator() {
    let mut d = stocked();
    let root = admin(&mut d);
    d.accounts.add(&root, String::from("clerk"), String::from("h"), Role::User).unwrap();
    let snap = d.create_snapshot(SnapshotKind::Auto, 10);
    sell(&mut d.store, "A", 1);
    let user = d.accounts.authenticate(&String::from("clerk"), &String::from("h"), 4).unwrap();
    assert_eq!(d.restore(&snap, &user), Err(SnapshotError::Unauthorized(Operation::RestoreSnapshot)));
    assert_eq!(d.store.current_stock(1), Some(7));
}

#[test]
fn corrupt_snapshot_leaves_data_alone() {
    let mut d = stocked();
    let root = admin(&mut d);
    let mut snap = d.create_snapshot(SnapshotKind::Auto, 10);
    assert!(snap.data.is_consistent());
    snap.schema_version = 0;
    assert_eq!(d.restore(&snap, &root), Err(SnapshotError::CorruptSnapshot));
    let mut old = d.create_snapshot(SnapshotKind::Auto, 11);
    old.schema_version = SCHEMA_VERSION + 1;
    assert_eq!(d.restore(&old, &root), Err(SnapshotError::CorruptSnapshot));
    assert_eq!(d.store.current_stock(1), Some(8));
}

#[test]
fn backups_are_kept_by_id_and_pruned_oldest_first() {
    let mut d = stocked();
    let root = admin(&mut d);
    let mut b = Backups::new();
    let first = b.record(d.create_snapshot(SnapshotKind::Auto, 1)).unwrap();
    sell(&mut d.store, "A", 1);
    let second = b.record(d.create_snapshot(SnapshotKind::Auto, 2)).unwrap();
    sell(&mut d.store, "B", 1);
    let third = b.record(d.create_snapshot(SnapshotKind::Manual, 3)).unwrap();
    assert_eq!((first, second, third), (1, 2, 3));
    b.prune(2);
    assert!(b.get(first).is_none());
    assert_eq!(b.get(third).unwrap().timestamp, 3);
    let snap = b.get(second).unwrap();
    assert_eq!(d.restore(snap, &root), Ok(()));
    assert_eq!(d.store.current_stock(1), Some(7));
    assert_eq!(b.records.len(), 2);
}
