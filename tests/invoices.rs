use nhw_core::catalog::{CatalogError, CustomerDetails, Pricing, ProductDetails};
use nhw_core::ledger::StockReason;
use nhw_core::store::{InvoiceError, InvoiceRequest, RequestLine, StockError, Store};
use nhw_core::tax::LineProblem;

fn contact() -> CustomerDetails {
    CustomerDetails { email: None, address: Some(String::from("12 Market Road")), gstin: None }
}

fn details() -> ProductDetails {
    ProductDetails {
        category: String::from("General"),
        hsn_code: String::from("3401"),
        unit: String::from("Nos"),
        package_size: None,
        batch_number: None,
        expiry_date: None,
    }
}

fn pricing(selling_price: i64, gst_rate_bp: u64) -> Pricing {
    Pricing {
        mrp: selling_price,
        discount_bp: 0,
        selling_price,
        purchase_price: selling_price / 2,
        gst_rate_bp,
        min_stock_level: 0,
    }
}

/// A store with one customer, one sales person and one product of the given stock.
fn shop(stock: i64) -> Store {
    let mut s = Store::new();
    s.add_customer(String::from("Asha"), String::from("9800000000"), contact()).unwrap();
    s.add_sales_person(String::from("Ravi")).unwrap();
    s.add_product(String::from("Soap"), details(), &pricing(10000, 1800)).unwrap();
    if stock > 0 {
        s.adjust_stock(1, stock, StockReason::Opening, None, 100).unwrap();
    }
    s
}

fn request(number: &str, lines: Vec<RequestLine>) -> InvoiceRequest {
    InvoiceRequest {
        invoice_number: String::from(number),
        customer_id: 1,
        sales_person_id: 1,
        is_gst_bill: true,
        same_state: true,
        lines,
    }
}

fn line(product_id: u64, quantity: i64) -> RequestLine {
    RequestLine { product_id, quantity }
}

#[test]
fn sale_lowers_stock_and_records_one_entry() {
    let mut s = shop(10);
    let id = s.create_invoice(&request("INV-001", vec![line(1, 3)]), 200).unwrap();
    assert_eq!(id, 1);
    let inv = &s.invoices()[0];
    assert_eq!(inv.totals.taxable_amount, 30000);
    assert_eq!(inv.totals.cgst, 2700);
    assert_eq!(inv.totals.sgst, 2700);
    assert_eq!(inv.totals.igst, 0);
    assert_eq!(inv.customer_name, "Asha");
    assert_eq!(inv.sales_person_name, "Ravi");
    assert_eq!(inv.customer_address, Some(String::from("12 Market Road")));
    assert_eq!(inv.customer_gstin, None);
    assert_eq!(s.catalog().products[0].details.unit, "Nos");
    assert_eq!(s.current_stock(1), Some(7));
    let sales: Vec<_> = s.ledger().entries.iter().filter(|e| e.reason == StockReason::Sale).collect();
    assert_eq!(sales.len(), 1);
    assert_eq!(sales[0].change_amount, -3);
    assert_eq!(sales[0].product_id, 1);
    assert_eq!(sales[0].reference_id, Some(1));
    assert!(s.reconcile(1));
}

#[test]
fn duplicate_number_is_refused_and_first_kept() {
    let mut s = shop(10);
    s.create_invoice(&request("INV-001", vec![line(1, 3)]), 200).unwrap();
    let r = s.create_invoice(&request("INV-001", vec![line(1, 1)]), 300);
    assert_eq!(r, Err(InvoiceError::DuplicateInvoiceNumber));
    assert_eq!(s.invoices().len(), 1);
    assert_eq!(s.invoices()[0].invoice_number, "INV-001");
    assert_eq!(s.invoices()[0].totals.taxable_amount, 30000);
    assert_eq!(s.invoices()[0].timestamp, 200);
    assert_eq!(s.current_stock(1), Some(7));
    assert_eq!(s.ledger().entries.len(), 2);
}

#[test]
fn stock_for_one_sale_serves_exactly_one() {
    let mut s = shop(5);
    let a = s.create_invoice(&request("A", vec![line(1, 5)]), 1);
    let b = s.create_invoice(&request("B", vec![line(1, 5)]), 1);
    assert!(a.is_ok());
    assert_eq!(
        b,
        Err(InvoiceError::InsufficientStock { product_id: 1, requested: 5, available: 0 })
    );
    assert_eq!(s.current_stock(1), Some(0));
    assert_eq!(s.invoices().len(), 1);
}

#[test]
fn lines_of_one_product_share_its_stock() {
    let mut s = shop(5);
    let r = s.create_invoice(&request("A", vec![line(1, 3), line(1, 3)]), 1);
    assert_eq!(
        r,
        Err(InvoiceError::InsufficientStock { product_id: 1, requested: 3, available: 2 })
    );
    assert_eq!(s.current_stock(1), Some(5));
    assert_eq!(s.ledger().entries.len(), 1);
    assert!(s.invoices().is_empty());
}

#[test]
fn ledger_sum_equals_stock() {
    let mut s = shop(10);
    s.add_product(String::from("Oil"), details(), &pricing(25000, 500)).unwrap();
    s.adjust_stock(2, 4, StockReason::Purchase, None, 150).unwrap();
    s.create_invoice(&request("A", vec![line(1, 2), line(2, 1), line(1, 1)]), 200).unwrap();
    s.adjust_stock(1, -1, StockReason::Adjustment, None, 250).unwrap();
    assert_eq!(s.current_stock(1), Some(6));
    assert_eq!(s.current_stock(2), Some(3));
    assert_eq!(s.ledger().recompute(1), 6);
    assert_eq!(s.ledger().recompute(2), 3);
    assert!(s.reconcile(1) && s.reconcile(2));
    assert!(s.is_consistent());
}

#[test]
fn committed_invoice_balances() {
    let mut s = Store::new();
    s.add_customer(String::from("C"), String::from("1"), contact()).unwrap();
    s.add_sales_person(String::from("S")).unwrap();
    s.add_product(String::from("Pen"), details(), &pricing(999, 1800)).unwrap();
    s.adjust_stock(1, 10, StockReason::Opening, None, 0).unwrap();
    let mut req = request("X", vec![line(1, 1)]);
    req.same_state = false;
    s.create_invoice(&req, 5).unwrap();
    let t = s.invoices()[0].totals;
    assert_eq!(t.igst, 180);
    assert_eq!(t.cgst + t.sgst, 0);
    assert_eq!(t.grand_total as i64, (t.taxable_amount + t.total_tax) as i64 + t.round_off);
    assert_eq!(t.grand_total, 1200);
}

#[test]
fn header_errors() {
    let mut s = shop(10);
    let mut r = request("A", vec![line(1, 1)]);
    r.customer_id = 9;
    assert_eq!(s.create_invoice(&r, 1), Err(InvoiceError::UnknownCustomer(9)));
    let mut r = request("A", vec![line(1, 1)]);
    r.sales_person_id = 4;
    assert_eq!(s.create_invoice(&r, 1), Err(InvoiceError::UnknownSalesPerson(4)));
    s.deactivate_sales_person(1).unwrap();
    assert_eq!(
        s.create_invoice(&request("A", vec![line(1, 1)]), 1),
        Err(InvoiceError::InactiveSalesPerson(1))
    );
    let mut t = shop(10);
    assert_eq!(t.create_invoice(&request("A", vec![]), 1), Err(InvoiceError::EmptyInvoice));
}

#[test]
fn line_errors() {
    let mut s = shop(10);
    assert_eq!(
        s.create_invoice(&request("A", vec![line(1, 1), line(7, 1)]), 1),
        Err(InvoiceError::UnknownProduct(7))
    );
    assert_eq!(
        s.create_invoice(&request("A", vec![line(1, 1), line(1, -2)]), 1),
        Err(InvoiceError::InvalidLineItem(1, LineProblem::NegativeQuantity))
    );
    s.add_product(String::from("Gold"), details(), &pricing(i64::MAX, 0)).unwrap();
    assert_eq!(
        s.create_invoice(&request("A", vec![line(2, 1)]), 1),
        Err(InvoiceError::AmountTooLarge)
    );
    assert_eq!(s.current_stock(1), Some(10));
    assert!(s.invoices().is_empty());
}

#[test]
fn prices_are_frozen_at_sale() {
    let mut s = shop(10);
    s.create_invoice(&request("A", vec![line(1, 1)]), 1).unwrap();
    s.update_pricing(1, &pricing(50000, 500)).unwrap();
    assert_eq!(s.catalog().products[0].selling_price, 50000);
    assert_eq!(s.current_stock(1), Some(9));
    assert_eq!(s.update_pricing(4, &pricing(1, 0)), Err(CatalogError::UnknownProduct(4)));
    assert_eq!(s.invoices()[0].items[0].unit_price, 10000);
    assert_eq!(s.invoices()[0].totals.taxable_amount, 10000);
}

#[test]
fn stock_adjustments() {
    let mut s = shop(3);
    assert_eq!(s.adjust_stock(9, 1, StockReason::Purchase, None, 1), Err(StockError::UnknownProduct(9)));
    assert_eq!(
        s.adjust_stock(1, -4, StockReason::Adjustment, None, 1),
        Err(StockError::InsufficientStock { product_id: 1, change_amount: -4, available: 3 })
    );
    assert_eq!(s.adjust_stock(1, i64::MAX, StockReason::Purchase, None, 1), Err(StockError::Overflow));
    assert_eq!(s.adjust_stock(1, 2, StockReason::Purchase, Some(77), 1), Ok(2));
    assert_eq!(s.current_stock(1), Some(5));
    assert_eq!(s.current_stock(2), None);
}

#[test]
fn catalog_checks_pricing() {
    let mut s = Store::new();
    assert_eq!(s.add_product(String::from("Bad"), details(), &pricing(-1, 0)), Err(CatalogError::NegativePrice));
    let mut p = pricing(100, 0);
    p.discount_bp = 10001;
    assert_eq!(s.add_product(String::from("Bad"), details(), &p), Err(CatalogError::DiscountOutOfRange));
    assert_eq!(s.add_product(String::from("Bad"), details(), &pricing(100, 20000)), Err(CatalogError::RateOutOfRange));
    assert_eq!(s.add_product(String::from("Good"), details(), &pricing(100, 0)), Ok(1));
    assert_eq!(s.deactivate_sales_person(3), Err(CatalogError::UnknownSalesPerson(3)));
}

#[test]
fn reversal_returns_goods_and_names_the_sale() {
    let mut s = shop(10);
    s.create_invoice(&request("A", vec![line(1, 4)]), 1).unwrap();
    let id = s.reverse_invoice(1, &String::from("R-A"), 2).unwrap();
    assert_eq!(id, 2);
    assert_eq!(s.current_stock(1), Some(10));
    let last = s.ledger().entries[s.ledger().entries.len() - 1];
    assert_eq!(last.change_amount, 4);
    assert_eq!(last.reason, StockReason::Reversal);
    assert_eq!(last.reference_id, Some(1));
    let rev = &s.invoices()[1];
    assert_eq!(rev.reverses, Some(1));
    assert_eq!(rev.items[0].quantity, -4);
    assert_eq!(rev.totals, s.invoices()[0].totals);
    assert!(s.reconcile(1));
    assert!(s.is_consistent());
}

#[test]
fn reversal_errors() {
    let mut s = shop(10);
    s.create_invoice(&request("A", vec![line(1, 4)]), 1).unwrap();
    assert_eq!(s.reverse_invoice(1, &String::from("A"), 2), Err(InvoiceError::DuplicateInvoiceNumber));
    assert_eq!(s.reverse_invoice(5, &String::from("R"), 2), Err(InvoiceError::UnknownInvoice(5)));
    s.reverse_invoice(1, &String::from("R"), 2).unwrap();
    assert_eq!(s.reverse_invoice(1, &String::from("R2"), 3), Err(InvoiceError::NotReversible(1)));
    assert_eq!(s.reverse_invoice(2, &String::from("R3"), 3), Err(InvoiceError::NotReversible(2)));
    assert_eq!(s.invoices().len(), 2);
}

#[test]
fn reversal_that_would_overflow_stock_is_refused() {
    let mut s = shop(10);
    s.create_invoice(&request("A", vec![line(1, 4)]), 1).unwrap();
    s.adjust_stock(1, i64::MAX - 6, StockReason::Purchase, None, 2).unwrap();
    assert_eq!(s.reverse_invoice(1, &String::from("R"), 3), Err(InvoiceError::StockOverflow(1)));
    assert_eq!(s.current_stock(1), Some(i64::MAX));
}
