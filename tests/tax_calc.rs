use nhw_core::tax::{compute_totals, round_half_even_exec, LineItem, LineProblem, TaxError, MAX_AMOUNT};

fn item(quantity: i64, unit_price: i64, discount_bp: u64, gst_rate_bp: u64) -> LineItem {
    LineItem { product_id: 1, quantity, unit_price, discount_bp, gst_rate_bp }
}

#[test]
fn rounding_ties_go_to_even() {
    assert_eq!(round_half_even_exec(250, 100), 2);
    assert_eq!(round_half_even_exec(350, 100), 4);
    assert_eq!(round_half_even_exec(251, 100), 3);
    assert_eq!(round_half_even_exec(249, 100), 2);
    assert_eq!(round_half_even_exec(0, 100), 0);
}

#[test]
fn same_state_splits_tax_in_halves() {
    let t = compute_totals(&vec![item(3, 10000, 0, 1800)], true, true).unwrap();
    assert_eq!(t.sub_total, 30000);
    assert_eq!(t.taxable_amount, 30000);
    assert_eq!(t.cgst, 2700);
    assert_eq!(t.sgst, 2700);
    assert_eq!(t.igst, 0);
    assert_eq!(t.total_tax, 5400);
    assert_eq!(t.round_off, 0);
    assert_eq!(t.grand_total, 35400);
}

#[test]
fn cross_state_uses_integrated_tax() {
    let t = compute_totals(&vec![item(1, 999, 0, 1800)], true, false).unwrap();
    assert_eq!(t.taxable_amount, 999);
    assert_eq!(t.cgst, 0);
    assert_eq!(t.sgst, 0);
    assert_eq!(t.igst, 180);
    assert_eq!(t.total_tax, 180);
    assert_eq!(t.grand_total, 1200);
    assert_eq!(t.round_off, 21);
}

#[test]
fn grand_total_balances_with_round_off() {
    let t = compute_totals(&vec![item(1, 999, 0, 1800), item(2, 1234, 500, 500)], true, true).unwrap();
    // 2 x 1234 = 2468, less 5% = 2344.6 -> 2345
    assert_eq!(t.sub_total, 999 + 2468);
    assert_eq!(t.taxable_amount, 999 + 2345);
    // 89.91 -> 90, and 2345 x 2.5% = 58.625 -> 59
    assert_eq!(t.cgst, 90 + 59);
    assert_eq!(t.sgst, t.cgst);
    let pre = (t.taxable_amount + t.total_tax) as i64;
    assert_eq!(t.grand_total as i64, pre + t.round_off);
    assert_eq!(t.grand_total % 100, 0);
    assert_eq!(t.grand_total, 3600);
}

#[test]
fn gst_split_is_exclusive() {
    let same = compute_totals(&vec![item(2, 5000, 0, 1200)], true, true).unwrap();
    assert!(same.cgst > 0 && same.sgst > 0 && same.igst == 0);
    let cross = compute_totals(&vec![item(2, 5000, 0, 1200)], true, false).unwrap();
    assert!(cross.igst > 0 && cross.cgst == 0 && cross.sgst == 0);
}

#[test]
fn non_gst_bill_has_no_tax() {
    let t = compute_totals(&vec![item(3, 3333, 0, 1800)], false, true).unwrap();
    assert_eq!(t.taxable_amount, 9999);
    assert_eq!(t.cgst + t.sgst + t.igst + t.total_tax, 0);
    assert_eq!(t.grand_total, 9999);
    assert_eq!(t.round_off, 0);
}

#[test]
fn discount_reduces_taxable_amount() {
    let t = compute_totals(&vec![item(3, 10000, 1000, 0)], true, true).unwrap();
    assert_eq!(t.sub_total, 30000);
    assert_eq!(t.taxable_amount, 27000);
    assert_eq!(t.total_tax, 0);
}

#[test]
fn empty_list_is_refused() {
    assert_eq!(compute_totals(&vec![], true, true), Err(TaxError::EmptyInvoice));
}

#[test]
fn first_bad_line_is_named() {
    let items = vec![item(1, 100, 0, 0), item(1, -5, 0, 0), item(-1, 100, 0, 0)];
    assert_eq!(
        compute_totals(&items, true, true),
        Err(TaxError::InvalidLineItem(1, LineProblem::NegativePrice))
    );
    assert_eq!(
        compute_totals(&vec![item(-2, 100, 0, 0)], true, true),
        Err(TaxError::InvalidLineItem(0, LineProblem::NegativeQuantity))
    );
    assert_eq!(
        compute_totals(&vec![item(1, 100, 10001, 0)], true, true),
        Err(TaxError::InvalidLineItem(0, LineProblem::DiscountOutOfRange))
    );
    assert_eq!(
        compute_totals(&vec![item(1, 100, 0, 10001)], true, true),
        Err(TaxError::InvalidLineItem(0, LineProblem::RateOutOfRange))
    );
}

#[test]
fn sub_total_limit() {
    let at_limit = vec![item(1, MAX_AMOUNT as i64, 0, 0)];
    assert_eq!(compute_totals(&at_limit, true, true).unwrap().sub_total, MAX_AMOUNT);
    let over = vec![item(1, MAX_AMOUNT as i64, 0, 0), item(1, 1, 0, 0)];
    assert_eq!(compute_totals(&over, true, true), Err(TaxError::AmountTooLarge));
    let huge = vec![item(i64::MAX, i64::MAX, 0, 0)];
    assert_eq!(compute_totals(&huge, true, true), Err(TaxError::AmountTooLarge));
}
