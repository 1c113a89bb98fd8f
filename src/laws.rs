//! Properties that hold of every consistent store and every sale.

use vstd::prelude::*;
use crate::ledger::stock_of;
use crate::store::{InvoiceRequest, RequestLine, Store, items_for, requested};
use crate::tax::{LineItem, Totals, is_totals_of, valid_line};

verus! {

/// A product's stock equals the sum of the changes that its ledger holds.
pub proof fn law_stock_matches_ledger(s: &Store, product_id: u64)
    requires
        s.wf(),
        s.spec_catalog().has_product(product_id),
    ensures
        s.stock(product_id) == stock_of(s.spec_ledger().entries@, product_id),
{
    assert(s.spec_catalog().products@[product_id - 1].current_stock == stock_of(
        s.spec_ledger().entries@,
        (product_id - 1 + 1) as u64,
    ));
}

/// Every committed invoice balances: the grand total is the taxable amount
/// plus the tax plus the rounding adjustment.
pub proof fn law_invoice_balances(s: &Store, i: int)
    requires
        s.wf(),
        0 <= i < s.spec_invoices().len(),
    ensures
        s.spec_invoices()[i].totals.grand_total == s.spec_invoices()[i].totals.taxable_amount
            + s.spec_invoices()[i].totals.total_tax + s.spec_invoices()[i].totals.round_off,
{
    assert(s.spec_invoices()[i].id == i + 1);
}

/// The totals of a GST bill that carries tax are either split into equal
/// central and state halves with no integrated tax, or are integrated tax
/// alone; never both.
pub proof fn law_gst_split(t: Totals, items: Seq<LineItem>, same_state: bool)
    requires
        is_totals_of(t, items, true, same_state),
        t.total_tax > 0,
    ensures
        (t.cgst > 0 && t.sgst > 0 && t.igst == 0) != (t.igst > 0 && t.cgst == 0 && t.sgst == 0),
{
}

/// The same holds of every committed GST invoice that carries tax.
pub proof fn law_committed_gst_split(s: &Store, i: int)
    requires
        s.wf(),
        0 <= i < s.spec_invoices().len(),
        s.spec_invoices()[i].is_gst_bill,
        s.spec_invoices()[i].totals.total_tax > 0,
    ensures
        ({
            let t = s.spec_invoices()[i].totals;
            (t.cgst > 0 && t.sgst > 0 && t.igst == 0) != (t.igst > 0 && t.cgst == 0 && t.sgst == 0)
        }),
{
    assert(s.spec_invoices()[i].id == i + 1);
}

/// A request that the stock serves line by line asks in all for no more of
/// any product than its stock.
proof fn lemma_in_stock_total(s: &Store, l: Seq<RequestLine>, p: u64, n: int)
    requires
        s.wf(),
        s.spec_catalog().has_product(p),
        s.all_known(l),
        s.all_in_stock(l),
        0 <= n <= l.len(),
    ensures
        requested(l.take(n), p) <= s.stock(p),
    decreases n,
{
    if n == 0 {
        assert(s.spec_catalog().products@[p - 1].current_stock >= 0);
    } else {
        assert(l.take(n).drop_last() =~= l.take(n - 1));
        assert(s.in_stock_at(l, n - 1));
        lemma_in_stock_total(s, l, p, n - 1);
    }
}

/// Stock is never sold twice: once one sale has committed, a second request
/// that asks, together with the first, for more of a product than there was
/// is refused.
pub proof fn law_no_oversell(
    before: &Store,
    after: &Store,
    first: &InvoiceRequest,
    id: u64,
    timestamp: u64,
    second: &InvoiceRequest,
    product_id: u64,
)
    requires
        before.wf(),
        after.wf(),
        before.committed(after, first, id, timestamp),
        before.spec_catalog().has_product(product_id),
        requested(first.lines@, product_id) + requested(second.lines@, product_id) > before.stock(
            product_id,
        ),
    ensures
        !after.accepts(second),
{
    let i = product_id - 1;
    assert(after.spec_catalog().products@[i].current_stock == before.spec_catalog().products@[i].current_stock
        - requested(first.lines@, (i + 1) as u64));
    if after.accepts(second) {
        let l = second.lines@;
        let items = items_for(after.spec_catalog(), l);
        assert forall|k: int| 0 <= k < l.len() implies (#[trigger] l[k]).quantity >= 0 by {
            assert(valid_line(items[k]));
        }
        assert(after.spec_catalog().has_product(product_id));
        lemma_in_stock_total(after, l, product_id, l.len() as int);
        assert(l.take(l.len() as int) =~= l);
    }
}

} // verus!
