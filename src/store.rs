//! The dataset and the invoice engine that keeps stock and ledger in step.

use vstd::prelude::*;
use crate::catalog::{
    Catalog,
    CatalogError,
    Customer,
    CustomerDetails,
    Pricing,
    Product,
    ProductDetails,
    SalesPerson,
    check_pricing,
    copy_text,
    pricing_ok,
};
use crate::ledger::{Ledger, StockEntry, StockReason, lemma_stock_of_push, stock_of};
use crate::tax::{
    LineItem,
    LineProblem,
    TaxError,
    Totals,
    all_valid,
    compute_totals,
    is_totals_of,
    problem_of,
    sum_gross,
    valid_line,
    MAX_AMOUNT,
};

verus! {

/// One line of a sale as asked for: a product and a quantity.
#[derive(Clone, Copy, Debug, PartialEq, Eq, Structural)]
pub struct RequestLine {
    pub product_id: u64,
    pub quantity: i64,
}

pub struct InvoiceRequest {
    pub invoice_number: String,
    pub customer_id: u64,
    pub sales_person_id: u64,
    pub is_gst_bill: bool,
    /// Whether buyer and seller are in the same state.
    pub same_state: bool,
    pub lines: Vec<RequestLine>,
}

/// A committed invoice. Its line items hold the prices and rates of the
/// time of sale, and the names of customer and sales person as they were.
pub struct Invoice {
    pub id: u64,
    pub invoice_number: String,
    pub timestamp: u64,
    pub customer_id: u64,
    pub customer_name: String,
    pub customer_phone: String,
    pub customer_address: Option<String>,
    pub customer_gstin: Option<String>,
    pub sales_person_id: u64,
    pub sales_person_name: String,
    pub is_gst_bill: bool,
    pub same_state: bool,
    pub totals: Totals,
    pub items: Vec<LineItem>,
    /// For a reversal, the id of the invoice it reverses. A reversal is a
    /// credit: its totals are the amounts given back, and its quantities are
    /// negative.
    pub reverses: Option<u64>,
}

#[derive(Clone, Copy, Debug, PartialEq, Eq, Structural)]
pub enum InvoiceError {
    DuplicateInvoiceNumber,
    UnknownCustomer(u64),
    UnknownSalesPerson(u64),
    InactiveSalesPerson(u64),
    EmptyInvoice,
    UnknownProduct(u64),
    InvalidLineItem(usize, LineProblem),
    AmountTooLarge,
    /// `available` is the stock left for this line after the earlier lines
    /// of the same invoice.
    InsufficientStock { product_id: u64, requested: i64, available: i64 },
    /// No more ids can be handed out.
    StorageFailure,
    UnknownInvoice(u64),
    /// The invoice is itself a reversal, or has been reversed already.
    NotReversible(u64),
    /// Returning the goods would take this product's stock past the largest
    /// representable amount.
    StockOverflow(u64),
}

/// The totals obey `grand = taxable + tax + round_off`, and the tax is
/// split by jurisdiction: central and state halves, or integrated tax.
pub open spec fn totals_consistent(t: Totals, is_gst: bool, same_state: bool) -> bool {
    &&& t.grand_total == t.taxable_amount + t.total_tax + t.round_off
    &&& t.total_tax == t.cgst + t.sgst + t.igst
    &&& (!is_gst ==> t.cgst == 0 && t.sgst == 0 && t.igst == 0)
    &&& (is_gst && same_state ==> t.igst == 0 && t.cgst == t.sgst)
    &&& (is_gst && !same_state ==> t.cgst == 0 && t.sgst == 0)
}

/// The total quantity of `product_id` that the lines ask for.
pub open spec fn requested(s: Seq<RequestLine>, product_id: u64) -> int
    decreases s.len(),
{
    if s.len() == 0 {
        0
    } else {
        requested(s.drop_last(), product_id) + (if s.last().product_id == product_id {
            s.last().quantity as int
        } else {
            0
        })
    }
}

pub open spec fn line_item_for(c: Catalog, l: RequestLine) -> LineItem {
    LineItem {
        product_id: l.product_id,
        quantity: l.quantity,
        unit_price: c.product(l.product_id).selling_price,
        discount_bp: c.product(l.product_id).discount_bp,
        gst_rate_bp: c.product(l.product_id).gst_rate_bp,
    }
}

/// The priced line items of a request, at the catalog's current terms.
pub open spec fn items_for(c: Catalog, s: Seq<RequestLine>) -> Seq<LineItem> {
    Seq::new(s.len(), |i: int| line_item_for(c, s[i]))
}

/// The ledger entries that a sale of `s` appends after `start` entries.
pub open spec fn sale_entries(s: Seq<RequestLine>, start: int, timestamp: u64, invoice_id: u64) -> Seq<
    StockEntry,
> {
    Seq::new(
        s.len(),
        |j: int|
            StockEntry {
                id: (start + j + 1) as u64,
                timestamp,
                product_id: s[j].product_id,
                change_amount: (-s[j].quantity) as i64,
                reason: StockReason::Sale,
                reference_id: Some(invoice_id),
            },
    )
}

/// The sales data. Its tables change only through the methods below, which
/// keep every product's stock equal to the sum of its ledger entries.
pub struct Store {
    pub(crate) catalog: Catalog,
    pub(crate) ledger: Ledger,
    pub(crate) invoices: Vec<Invoice>,
}

impl Store {
    pub open(crate) spec fn spec_catalog(&self) -> Catalog {
        self.catalog
    }

    pub open(crate) spec fn spec_ledger(&self) -> Ledger {
        self.ledger
    }

    pub open(crate) spec fn spec_invoices(&self) -> Seq<Invoice> {
        self.invoices@
    }

    pub fn catalog(&self) -> (r: &Catalog)
        ensures
            *r == self.spec_catalog(),
    {
        &self.catalog
    }

    pub fn ledger(&self) -> (r: &Ledger)
        ensures
            *r == self.spec_ledger(),
    {
        &self.ledger
    }

    pub fn invoices(&self) -> (r: &Vec<Invoice>)
        ensures
            r@ == self.spec_invoices(),
    {
        &self.invoices
    }

    pub open spec fn stock(&self, product_id: u64) -> int {
        self.spec_catalog().product(product_id).current_stock as int
    }

    pub open spec fn number_taken(&self, n: Seq<char>) -> bool {
        exists|i: int| 0 <= i < self.spec_invoices().len() && (#[trigger] self.spec_invoices()[i]).invoice_number@ == n
    }

    pub open spec fn wf(&self) -> bool {
        &&& self.spec_catalog().wf()
        &&& self.spec_ledger().wf()
        &&& forall|i: int|
            0 <= i < self.spec_catalog().products@.len() ==> (#[trigger] self.spec_catalog().products@[i]).current_stock
                == stock_of(self.spec_ledger().entries@, (i + 1) as u64) && self.spec_catalog().products@[i].current_stock
                >= 0
        &&& forall|i: int|
            0 <= i < self.spec_ledger().entries@.len() ==> self.spec_catalog().has_product(
                (#[trigger] self.spec_ledger().entries@[i]).product_id,
            )
        &&& forall|i: int|
            0 <= i < self.spec_invoices().len() ==> (#[trigger] self.spec_invoices()[i]).id == i + 1
                && totals_consistent(
                self.spec_invoices()[i].totals,
                self.spec_invoices()[i].is_gst_bill,
                self.spec_invoices()[i].same_state,
            )
        &&& forall|i: int, j: int|
            0 <= i < j < self.spec_invoices().len() ==> (#[trigger] self.spec_invoices()[i]).invoice_number@
                != (#[trigger] self.spec_invoices()[j]).invoice_number@
        &&& forall|i: int, j: int|
            0 <= i < self.spec_invoices().len() && 0 <= j < self.spec_invoices()[i].items@.len()
                ==> self.spec_catalog().has_product((#[trigger] self.spec_invoices()[i].items@[j]).product_id)
        &&& forall|i: int|
            0 <= i < self.spec_invoices().len() && (#[trigger] self.spec_invoices()[i]).reverses is None ==> all_valid(
                self.spec_invoices()[i].items@,
            )
    }

    pub fn new() -> (r: Store)
        ensures
            r.wf(),
            r.spec_catalog().products@.len() == 0,
            r.spec_catalog().customers@.len() == 0,
            r.spec_catalog().sales_persons@.len() == 0,
            r.spec_ledger().entries@.len() == 0,
            r.spec_invoices().len() == 0,
    {
        Store { catalog: Catalog::new(), ledger: Ledger::new(), invoices: Vec::new() }
    }
}

/// A product that no entry names has no stock.
proof fn lemma_stock_of_absent(s: Seq<StockEntry>, product_id: u64)
    requires
        forall|i: int| 0 <= i < s.len() ==> (#[trigger] s[i]).product_id != product_id,
    ensures
        stock_of(s, product_id) == 0,
    decreases s.len(),
{
    if s.len() > 0 {
        lemma_stock_of_absent(s.drop_last(), product_id);
    }
}

#[derive(Clone, Copy, Debug, PartialEq, Eq, Structural)]
pub enum StockError {
    UnknownProduct(u64),
    /// The change would take the stock below zero.
    InsufficientStock { product_id: u64, change_amount: i64, available: i64 },
    /// The change would take the stock past the largest representable amount.
    Overflow,
    /// No more ids can be handed out.
    StorageFailure,
}

impl Store {
    /// Registers a product with no stock and returns its id.
    pub fn add_product(&mut self, name: String, details: ProductDetails, pricing: &Pricing) -> (r: Result<
        u64,
        CatalogError,
    >)
        requires
            old(self).wf(),
        ensures
            final(self).wf(),
            final(self).spec_ledger() == old(self).spec_ledger(),
            final(self).spec_invoices() == old(self).spec_invoices(),
            final(self).spec_catalog().customers@ == old(self).spec_catalog().customers@,
            final(self).spec_catalog().sales_persons@ == old(self).spec_catalog().sales_persons@,
            !pricing_ok(*pricing) ==> r == Err::<u64, CatalogError>(
                crate::catalog::pricing_error(*pricing).unwrap(),
            ) && final(self).spec_catalog().products@ == old(self).spec_catalog().products@,
            pricing_ok(*pricing) && old(self).spec_catalog().products@.len() >= u64::MAX ==> r == Err::<
                u64,
                CatalogError,
            >(CatalogError::Full) && final(self).spec_catalog().products@ == old(self).spec_catalog().products@,
            pricing_ok(*pricing) && old(self).spec_catalog().products@.len() < u64::MAX ==> r == Ok::<
                u64,
                CatalogError,
            >((old(self).spec_catalog().products@.len() + 1) as u64) && final(self).spec_catalog().products@ == old(self).spec_catalog().products@.push(
                Product {
                    id: (old(self).spec_catalog().products@.len() + 1) as u64,
                    name,
                    details,
                    mrp: pricing.mrp,
                    discount_bp: pricing.discount_bp,
                    selling_price: pricing.selling_price,
                    purchase_price: pricing.purchase_price,
                    gst_rate_bp: pricing.gst_rate_bp,
                    current_stock: 0,
                    min_stock_level: pricing.min_stock_level,
                },
            ),
    {
        match check_pricing(pricing) {
            Some(e) => {
                return Err(e);
            },
            None => {},
        }
        if self.catalog.products.len() as u64 >= u64::MAX {
            return Err(CatalogError::Full);
        }
        let id = self.catalog.products.len() as u64 + 1;
        proof {
            lemma_stock_of_absent(self.spec_ledger().entries@, id);
        }
        self.catalog.products.push(
            Product {
                id,
                name,
                details,
                mrp: pricing.mrp,
                discount_bp: pricing.discount_bp,
                selling_price: pricing.selling_price,
                purchase_price: pricing.purchase_price,
                gst_rate_bp: pricing.gst_rate_bp,
                current_stock: 0,
                min_stock_level: pricing.min_stock_level,
            },
        );
        Ok(id)
    }

    pub fn add_customer(&mut self, name: String, phone: String, details: CustomerDetails) -> (r: Result<
        u64,
        CatalogError,
    >)
        requires
            old(self).wf(),
        ensures
            final(self).wf(),
            final(self).spec_ledger() == old(self).spec_ledger(),
            final(self).spec_invoices() == old(self).spec_invoices(),
            final(self).spec_catalog().products@ == old(self).spec_catalog().products@,
            final(self).spec_catalog().sales_persons@ == old(self).spec_catalog().sales_persons@,
            old(self).spec_catalog().customers@.len() < u64::MAX ==> r == Ok::<u64, CatalogError>(
                (old(self).spec_catalog().customers@.len() + 1) as u64,
            ) && final(self).spec_catalog().customers@ == old(self).spec_catalog().customers@.push(
                Customer { id: (old(self).spec_catalog().customers@.len() + 1) as u64, name, phone, details },
            ),
            old(self).spec_catalog().customers@.len() >= u64::MAX ==> r == Err::<u64, CatalogError>(
                CatalogError::Full,
            ),
    {
        self.catalog.add_customer(name, phone, details)
    }

    pub fn add_sales_person(&mut self, name: String) -> (r: Result<u64, CatalogError>)
        requires
            old(self).wf(),
        ensures
            final(self).wf(),
            final(self).spec_ledger() == old(self).spec_ledger(),
            final(self).spec_invoices() == old(self).spec_invoices(),
            final(self).spec_catalog().products@ == old(self).spec_catalog().products@,
            final(self).spec_catalog().customers@ == old(self).spec_catalog().customers@,
            old(self).spec_catalog().sales_persons@.len() < u64::MAX ==> r == Ok::<u64, CatalogError>(
                (old(self).spec_catalog().sales_persons@.len() + 1) as u64,
            ) && final(self).spec_catalog().sales_persons@ == old(self).spec_catalog().sales_persons@.push(
                SalesPerson { id: (old(self).spec_catalog().sales_persons@.len() + 1) as u64, name, is_active: true },
            ),
            old(self).spec_catalog().sales_persons@.len() >= u64::MAX ==> r == Err::<u64, CatalogError>(
                CatalogError::Full,
            ),
    {
        self.catalog.add_sales_person(name)
    }

    pub fn deactivate_sales_person(&mut self, id: u64) -> (r: Result<(), CatalogError>)
        requires
            old(self).wf(),
        ensures
            final(self).wf(),
            final(self).spec_ledger() == old(self).spec_ledger(),
            final(self).spec_invoices() == old(self).spec_invoices(),
            final(self).spec_catalog().products@ == old(self).spec_catalog().products@,
            final(self).spec_catalog().customers@ == old(self).spec_catalog().customers@,
            r is Ok <==> old(self).spec_catalog().has_sales_person(id),
            r is Ok ==> !final(self).spec_catalog().sales_persons@[id - 1].is_active
                && final(self).spec_catalog().sales_persons@[id - 1].name == old(self).spec_catalog().sales_persons@[id - 1].name,
            forall|i: int|
                0 <= i < old(self).spec_catalog().sales_persons@.len() && i != id - 1
                    ==> #[trigger] final(self).spec_catalog().sales_persons@[i] == old(self).spec_catalog().sales_persons@[i],
            r is Err ==> final(self).spec_catalog().sales_persons@ == old(self).spec_catalog().sales_persons@,
    {
        self.catalog.deactivate_sales_person(id)
    }

    /// Changes the terms on which a product is sold from now on; invoices
    /// already committed keep the terms of their time of sale.
    pub fn update_pricing(&mut self, product_id: u64, pricing: &Pricing) -> (r: Result<(), CatalogError>)
        requires
            old(self).wf(),
        ensures
            final(self).wf(),
            final(self).spec_ledger() == old(self).spec_ledger(),
            final(self).spec_invoices() == old(self).spec_invoices(),
            final(self).spec_catalog().customers@ == old(self).spec_catalog().customers@,
            final(self).spec_catalog().sales_persons@ == old(self).spec_catalog().sales_persons@,
            !old(self).spec_catalog().has_product(product_id) ==> r == Err::<(), CatalogError>(
                CatalogError::UnknownProduct(product_id),
            ),
            old(self).spec_catalog().has_product(product_id) && !pricing_ok(*pricing) ==> r == Err::<
                (),
                CatalogError,
            >(crate::catalog::pricing_error(*pricing).unwrap()),
            r is Err ==> final(self).spec_catalog().products@ == old(self).spec_catalog().products@,
            r is Ok <==> old(self).spec_catalog().has_product(product_id) && pricing_ok(*pricing),
            r is Ok ==> {
                let before = old(self).spec_catalog().product(product_id);
                let after = final(self).spec_catalog().product(product_id);
                &&& final(self).spec_catalog().products@.len() == old(self).spec_catalog().products@.len()
                &&& after.id == before.id && after.name == before.name && after.details == before.details
                &&& after.current_stock == before.current_stock
                &&& after.mrp == pricing.mrp && after.discount_bp == pricing.discount_bp
                &&& after.selling_price == pricing.selling_price && after.purchase_price == pricing.purchase_price
                &&& after.gst_rate_bp == pricing.gst_rate_bp && after.min_stock_level == pricing.min_stock_level
                &&& forall|i: int|
                    0 <= i < old(self).spec_catalog().products@.len() && i != product_id - 1
                        ==> #[trigger] final(self).spec_catalog().products@[i] == old(self).spec_catalog().products@[i]
            },
    {
        let idx = match self.catalog.product_index(product_id) {
            Some(i) => i,
            None => {
                return Err(CatalogError::UnknownProduct(product_id));
            },
        };
        match check_pricing(pricing) {
            Some(e) => {
                return Err(e);
            },
            None => {},
        }
        self.catalog.products[idx].mrp = pricing.mrp;
        self.catalog.products[idx].discount_bp = pricing.discount_bp;
        self.catalog.products[idx].selling_price = pricing.selling_price;
        self.catalog.products[idx].purchase_price = pricing.purchase_price;
        self.catalog.products[idx].gst_rate_bp = pricing.gst_rate_bp;
        self.catalog.products[idx].min_stock_level = pricing.min_stock_level;
        Ok(())
    }

    /// The cached stock of a product, or `None` for an unknown id.
    pub fn current_stock(&self, product_id: u64) -> (r: Option<i64>)
        requires
            self.wf(),
        ensures
            self.spec_catalog().has_product(product_id) ==> r == Some(self.spec_catalog().product(product_id).current_stock)
                && r.unwrap() == stock_of(self.spec_ledger().entries@, product_id),
            !self.spec_catalog().has_product(product_id) ==> r is None,
    {
        match self.catalog.product_index(product_id) {
            Some(idx) => {
                assert(self.spec_catalog().products@[idx as int].current_stock == stock_of(
                    self.spec_ledger().entries@,
                    product_id,
                ));
                Some(self.catalog.products[idx].current_stock)
            },
            None => None,
        }
    }

    /// Whether the cached stock of a product equals the sum of its ledger
    /// entries; `false` would mean corruption.
    pub fn reconcile(&self, product_id: u64) -> (r: bool)
        requires
            self.spec_catalog().has_product(product_id),
        ensures
            r == (self.spec_catalog().product(product_id).current_stock == stock_of(self.spec_ledger().entries@, product_id)),
            self.wf() ==> r,
    {
        let idx = self.catalog.product_index(product_id).unwrap();
        let cached = self.catalog.products[idx].current_stock;
        proof {
            if self.wf() {
                assert(self.spec_catalog().products@[idx as int].current_stock == stock_of(
                    self.spec_ledger().entries@,
                    product_id,
                ));
            }
        }
        self.ledger.recompute(product_id) == cached as i128
    }

    /// Records a stock movement outside a sale (opening stock, a purchase,
    /// a correction) and returns the ledger entry's id.
    pub fn adjust_stock(
        &mut self,
        product_id: u64,
        change_amount: i64,
        reason: StockReason,
        reference_id: Option<u64>,
        timestamp: u64,
    ) -> (r: Result<u64, StockError>)
        requires
            old(self).wf(),
        ensures
            final(self).wf(),
            final(self).spec_invoices() == old(self).spec_invoices(),
            final(self).spec_catalog().customers@ == old(self).spec_catalog().customers@,
            final(self).spec_catalog().sales_persons@ == old(self).spec_catalog().sales_persons@,
            !old(self).spec_catalog().has_product(product_id) ==> r == Err::<u64, StockError>(
                StockError::UnknownProduct(product_id),
            ),
            old(self).spec_catalog().has_product(product_id) && old(self).stock(product_id) + change_amount < 0
                ==> r == Err::<u64, StockError>(
                StockError::InsufficientStock {
                    product_id,
                    change_amount,
                    available: old(self).stock(product_id) as i64,
                },
            ),
            old(self).spec_catalog().has_product(product_id) && old(self).stock(product_id) + change_amount
                > i64::MAX ==> r == Err::<u64, StockError>(StockError::Overflow),
            old(self).spec_catalog().has_product(product_id) && 0 <= old(self).stock(product_id) + change_amount
                <= i64::MAX && old(self).spec_ledger().entries@.len() + 1 >= u64::MAX ==> r == Err::<
                u64,
                StockError,
            >(StockError::StorageFailure),
            r is Err ==> final(self).spec_catalog().products@ == old(self).spec_catalog().products@
                && final(self).spec_ledger() == old(self).spec_ledger(),
            old(self).spec_catalog().has_product(product_id) && 0 <= old(self).stock(product_id) + change_amount
                <= i64::MAX && old(self).spec_ledger().entries@.len() + 1 < u64::MAX ==> {
                &&& r == Ok::<u64, StockError>((old(self).spec_ledger().entries@.len() + 1) as u64)
                &&& final(self).spec_ledger().entries@ == old(self).spec_ledger().entries@.push(
                    StockEntry {
                        id: (old(self).spec_ledger().entries@.len() + 1) as u64,
                        timestamp,
                        product_id,
                        change_amount,
                        reason,
                        reference_id,
                    },
                )
                &&& final(self).stock(product_id) == old(self).stock(product_id) + change_amount
                &&& final(self).spec_catalog().products@.len() == old(self).spec_catalog().products@.len()
                &&& forall|i: int|
                    0 <= i < old(self).spec_catalog().products@.len() ==> same_except_stock(
                        #[trigger] final(self).spec_catalog().products@[i],
                        old(self).spec_catalog().products@[i],
                    ) && (i != product_id - 1 ==> final(self).spec_catalog().products@[i].current_stock
                        == old(self).spec_catalog().products@[i].current_stock)
            },
    {
        let idx = match self.catalog.product_index(product_id) {
            Some(i) => i,
            None => {
                return Err(StockError::UnknownProduct(product_id));
            },
        };
        let cur = self.catalog.products[idx].current_stock;
        let next = cur as i128 + change_amount as i128;
        if next < 0 {
            return Err(
                StockError::InsufficientStock { product_id, change_amount, available: cur },
            );
        }
        if next > i64::MAX as i128 {
            return Err(StockError::Overflow);
        }
        if self.ledger.len() as u64 >= u64::MAX - 1 {
            return Err(StockError::StorageFailure);
        }
        let ghost old_entries = self.spec_ledger().entries@;
        let id = self.ledger.append(product_id, change_amount, reason, reference_id, timestamp);
        self.catalog.products[idx].current_stock = next as i64;
        proof {
            assert forall|i: int| 0 <= i < self.spec_catalog().products@.len() implies (
            #[trigger] self.spec_catalog().products@[i]).current_stock == stock_of(
                self.spec_ledger().entries@,
                (i + 1) as u64,
            ) by {
                lemma_stock_of_push(old_entries, self.spec_ledger().entries@.last(), (i + 1) as u64);
                assert(self.spec_ledger().entries@ == old_entries.push(self.spec_ledger().entries@.last()));
            }
        }
        Ok(id)
    }
}

pub open spec fn same_except_stock(a: Product, b: Product) -> bool {
    &&& a.id == b.id
    &&& a.name == b.name
    &&& a.details == b.details
    &&& a.mrp == b.mrp
    &&& a.discount_bp == b.discount_bp
    &&& a.selling_price == b.selling_price
    &&& a.purchase_price == b.purchase_price
    &&& a.gst_rate_bp == b.gst_rate_bp
    &&& a.min_stock_level == b.min_stock_level
}

impl Store {
    /// The first failure among the checks on the request's header, in order:
    /// number, customer, sales person, and an empty list of lines.
    pub open spec fn header_error(&self, req: &InvoiceRequest) -> Option<InvoiceError> {
        if self.number_taken(req.invoice_number@) {
            Some(InvoiceError::DuplicateInvoiceNumber)
        } else if !self.spec_catalog().has_customer(req.customer_id) {
            Some(InvoiceError::UnknownCustomer(req.customer_id))
        } else if !self.spec_catalog().has_sales_person(req.sales_person_id) {
            Some(InvoiceError::UnknownSalesPerson(req.sales_person_id))
        } else if !self.spec_catalog().sales_persons@[req.sales_person_id - 1].is_active {
            Some(InvoiceError::InactiveSalesPerson(req.sales_person_id))
        } else if req.lines@.len() == 0 {
            Some(InvoiceError::EmptyInvoice)
        } else {
            None
        }
    }

    pub open spec fn all_known(&self, s: Seq<RequestLine>) -> bool {
        forall|i: int| 0 <= i < s.len() ==> self.spec_catalog().has_product((#[trigger] s[i]).product_id)
    }

    /// Line `k` fits in the stock left after the earlier lines.
    pub open spec fn in_stock_at(&self, s: Seq<RequestLine>, k: int) -> bool {
        requested(s.take(k + 1), s[k].product_id) <= self.stock(s[k].product_id)
    }

    pub open spec fn all_in_stock(&self, s: Seq<RequestLine>) -> bool {
        forall|k: int| 0 <= k < s.len() ==> #[trigger] self.in_stock_at(s, k)
    }

    /// Ids are left for one more invoice and for one entry per line.
    pub open spec fn has_room(&self, s: Seq<RequestLine>) -> bool {
        &&& self.spec_invoices().len() + 1 < u64::MAX
        &&& self.spec_ledger().entries@.len() + s.len() < u64::MAX
    }

    /// Every check on the request passes.
    pub open spec fn accepts(&self, req: &InvoiceRequest) -> bool {
        let items = items_for(self.spec_catalog(), req.lines@);
        &&& self.header_error(req) is None
        &&& self.all_known(req.lines@)
        &&& all_valid(items)
        &&& sum_gross(items) <= MAX_AMOUNT
        &&& self.all_in_stock(req.lines@)
        &&& self.has_room(req.lines@)
    }

    /// `after` is `self` with the sale of `req` committed as invoice `id`.
    pub open spec fn committed(&self, after: &Store, req: &InvoiceRequest, id: u64, timestamp: u64) -> bool {
        let s = req.lines@;
        let items = items_for(self.spec_catalog(), s);
        let inv = after.spec_invoices().last();
        &&& id == self.spec_invoices().len() + 1
        &&& after.spec_catalog().customers@ == self.spec_catalog().customers@
        &&& after.spec_catalog().sales_persons@ == self.spec_catalog().sales_persons@
        &&& after.spec_catalog().products@.len() == self.spec_catalog().products@.len()
        &&& forall|i: int|
            0 <= i < self.spec_catalog().products@.len() ==> same_except_stock(
                #[trigger] after.spec_catalog().products@[i],
                self.spec_catalog().products@[i],
            ) && after.spec_catalog().products@[i].current_stock == self.spec_catalog().products@[i].current_stock
                - requested(s, (i + 1) as u64)
        &&& after.spec_ledger().entries@ == self.spec_ledger().entries@ + sale_entries(
            s,
            self.spec_ledger().entries@.len() as int,
            timestamp,
            id,
        )
        &&& after.spec_invoices().len() == self.spec_invoices().len() + 1
        &&& after.spec_invoices().drop_last() == self.spec_invoices()
        &&& inv.id == id
        &&& inv.invoice_number@ == req.invoice_number@
        &&& inv.timestamp == timestamp
        &&& inv.customer_id == req.customer_id
        &&& inv.customer_name == self.spec_catalog().customers@[req.customer_id - 1].name
        &&& inv.customer_phone == self.spec_catalog().customers@[req.customer_id - 1].phone
        &&& inv.customer_address == self.spec_catalog().customers@[req.customer_id - 1].details.address
        &&& inv.customer_gstin == self.spec_catalog().customers@[req.customer_id - 1].details.gstin
        &&& inv.sales_person_id == req.sales_person_id
        &&& inv.sales_person_name == self.spec_catalog().sales_persons@[req.sales_person_id - 1].name
        &&& inv.is_gst_bill == req.is_gst_bill
        &&& inv.same_state == req.same_state
        &&& inv.items@ == items
        &&& inv.reverses is None
        &&& is_totals_of(inv.totals, items, req.is_gst_bill, req.same_state)
    }

    fn number_in_use(&self, n: &String) -> (r: bool)
        ensures
            r == self.number_taken(n@),
    {
        let mut i: usize = 0;
        while i < self.invoices.len()
            invariant
                i <= self.spec_invoices().len(),
                forall|j: int| 0 <= j < i ==> (#[trigger] self.spec_invoices()[j]).invoice_number@ != n@,
            decreases self.spec_invoices().len() - i,
        {
            if self.invoices[i].invoice_number == *n {
                return true;
            }
            i = i + 1;
        }
        false
    }

    fn first_unknown_product(&self, lines: &Vec<RequestLine>) -> (r: Option<usize>)
        ensures
            r is None <==> self.all_known(lines@),
            r is Some ==> r.unwrap() < lines@.len() && !self.spec_catalog().has_product(
                lines@[r.unwrap() as int].product_id,
            ) && forall|j: int| 0 <= j < r.unwrap() ==> self.spec_catalog().has_product(
                (#[trigger] lines@[j]).product_id,
            ),
    {
        let mut i: usize = 0;
        while i < lines.len()
            invariant
                i <= lines@.len(),
                forall|j: int| 0 <= j < i ==> self.spec_catalog().has_product((#[trigger] lines@[j]).product_id),
            decreases lines@.len() - i,
        {
            if !self.catalog.product_exists(lines[i].product_id) {
                return Some(i);
            }
            i = i + 1;
        }
        None
    }

    fn priced_items(&self, lines: &Vec<RequestLine>) -> (r: Vec<LineItem>)
        requires
            self.spec_catalog().wf(),
            self.all_known(lines@),
        ensures
            r@ == items_for(self.spec_catalog(), lines@),
    {
        let mut r: Vec<LineItem> = Vec::new();
        let mut i: usize = 0;
        while i < lines.len()
            invariant
                i <= lines@.len(),
                self.all_known(lines@),
                r@.len() == i,
                forall|j: int| 0 <= j < i ==> #[trigger] r@[j] == line_item_for(self.spec_catalog(), lines@[j]),
            decreases lines@.len() - i,
        {
            let l = lines[i];
            assert(self.spec_catalog().has_product(lines@[i as int].product_id));
            let idx = self.catalog.product_index(l.product_id).unwrap();
            let p = &self.catalog.products[idx];
            r.push(
                LineItem {
                    product_id: l.product_id,
                    quantity: l.quantity,
                    unit_price: p.selling_price,
                    discount_bp: p.discount_bp,
                    gst_rate_bp: p.gst_rate_bp,
                },
            );
            i = i + 1;
        }
        assert(r@ =~= items_for(self.spec_catalog(), lines@));
        r
    }

    /// The first line that the stock cannot serve, with the stock left for
    /// it after the earlier lines.
    fn first_short_line(&self, lines: &Vec<RequestLine>) -> (r: Option<(usize, i64)>)
        requires
            self.wf(),
            self.all_known(lines@),
            forall|i: int| 0 <= i < lines@.len() ==> (#[trigger] lines@[i]).quantity >= 0,
        ensures
            r is None <==> self.all_in_stock(lines@),
            r is Some ==> {
                let (i, avail) = r.unwrap();
                &&& i < lines@.len()
                &&& !self.in_stock_at(lines@, i as int)
                &&& forall|k: int| 0 <= k < i ==> #[trigger] self.in_stock_at(lines@, k)
                &&& avail == self.stock(lines@[i as int].product_id) - requested(
                    lines@.take(i as int),
                    lines@[i as int].product_id,
                )
            },
    {
        let ghost s = lines@;
        let mut i: usize = 0;
        while i < lines.len()
            invariant
                s == lines@,
                self.wf(),
                self.all_known(s),
                forall|j: int| 0 <= j < s.len() ==> (#[trigger] s[j]).quantity >= 0,
                i <= s.len(),
                forall|k: int| 0 <= k < i ==> #[trigger] self.in_stock_at(s, k),
                forall|p: u64| self.spec_catalog().has_product(p) ==> requested(s.take(i as int), p) <= self.stock(p),
            decreases s.len() - i,
        {
            let pid = lines[i].product_id;
            let qty = lines[i].quantity;
            assert(self.spec_catalog().has_product(s[i as int].product_id));
            let mut before: i128 = 0;
            let mut j: usize = 0;
            while j < i
                invariant
                    s == lines@,
                    i < s.len(),
                    j <= i,
                    forall|m: int| 0 <= m < s.len() ==> (#[trigger] s[m]).quantity >= 0,
                    before == requested(s.take(j as int), pid),
                    0 <= before <= (j as int) * 0x8000_0000_0000_0000,
                decreases i - j,
            {
                proof {
                    assert(s.take(j + 1).drop_last() =~= s.take(j as int));
                    assert((j as int) * 0x8000_0000_0000_0000 + 0x8000_0000_0000_0000 < 0x7fff_ffff_ffff_ffff_ffff_ffff_ffff_ffff)
                        by (nonlinear_arith)
                        requires
                            j + 1 < 0x1_0000_0000_0000_0000,
                    ;
                }
                if lines[j].product_id == pid {
                    before = before + lines[j].quantity as i128;
                }
                j = j + 1;
            }
            let idx = self.catalog.product_index(pid).unwrap();
            let stock = self.catalog.products[idx].current_stock;
            let avail = (stock as i128 - before) as i64;
            proof {
                assert(s.take(i + 1).drop_last() =~= s.take(i as int));
            }
            if qty > avail {
                assert(!self.in_stock_at(s, i as int));
                return Some((i, avail));
            }
            proof {
                assert forall|p: u64| self.spec_catalog().has_product(p) implies requested(s.take(i + 1), p)
                    <= self.stock(p) by {
                    assert(s.take(i + 1).drop_last() =~= s.take(i as int));
                }
            }
            i = i + 1;
        }
        None
    }
}

impl Store {
    /// Appends one sale entry per line and lowers each product's stock.
    fn commit_sale(&mut self, lines: &Vec<RequestLine>, invoice_id: u64, timestamp: u64)
        requires
            old(self).wf(),
            old(self).all_known(lines@),
            old(self).all_in_stock(lines@),
            old(self).spec_ledger().entries@.len() + lines@.len() < u64::MAX,
            forall|i: int| 0 <= i < lines@.len() ==> (#[trigger] lines@[i]).quantity >= 0,
        ensures
            final(self).spec_catalog().wf(),
            final(self).spec_ledger().wf(),
            final(self).spec_invoices() == old(self).spec_invoices(),
            final(self).spec_catalog().customers@ == old(self).spec_catalog().customers@,
            final(self).spec_catalog().sales_persons@ == old(self).spec_catalog().sales_persons@,
            final(self).spec_catalog().products@.len() == old(self).spec_catalog().products@.len(),
            forall|i: int|
                0 <= i < old(self).spec_catalog().products@.len() ==> same_except_stock(
                    #[trigger] final(self).spec_catalog().products@[i],
                    old(self).spec_catalog().products@[i],
                ) && final(self).spec_catalog().products@[i].current_stock == old(self).spec_catalog().products@[i].current_stock
                    - requested(lines@, (i + 1) as u64) && final(self).spec_catalog().products@[i].current_stock
                    == stock_of(final(self).spec_ledger().entries@, (i + 1) as u64)
                    && final(self).spec_catalog().products@[i].current_stock >= 0,
            forall|i: int|
                0 <= i < final(self).spec_ledger().entries@.len() ==> final(self).spec_catalog().has_product(
                    (#[trigger] final(self).spec_ledger().entries@[i]).product_id,
                ),
            final(self).spec_ledger().entries@ == old(self).spec_ledger().entries@ + sale_entries(
                lines@,
                old(self).spec_ledger().entries@.len() as int,
                timestamp,
                invoice_id,
            ),
    {
        let ghost s = lines@;
        let ghost before = *self;
        let ghost start = self.spec_ledger().entries@.len() as int;
        let mut k: usize = 0;
        while k < lines.len()
            invariant
                s == lines@,
                before.wf(),
                before.all_known(s),
                before.all_in_stock(s),
                start == before.spec_ledger().entries@.len(),
                start + s.len() < u64::MAX,
                forall|i: int| 0 <= i < s.len() ==> (#[trigger] s[i]).quantity >= 0,
                k <= s.len(),
                self.spec_catalog().wf(),
                self.spec_ledger().wf(),
                self.spec_invoices() == before.spec_invoices(),
                self.spec_catalog().customers@ == before.spec_catalog().customers@,
                self.spec_catalog().sales_persons@ == before.spec_catalog().sales_persons@,
                self.spec_catalog().products@.len() == before.spec_catalog().products@.len(),
                forall|i: int|
                    0 <= i < before.spec_catalog().products@.len() ==> same_except_stock(
                        #[trigger] self.spec_catalog().products@[i],
                        before.spec_catalog().products@[i],
                    ) && self.spec_catalog().products@[i].current_stock == before.spec_catalog().products@[i].current_stock
                        - requested(s.take(k as int), (i + 1) as u64) && self.spec_catalog().products@[i].current_stock
                        == stock_of(self.spec_ledger().entries@, (i + 1) as u64)
                        && self.spec_catalog().products@[i].current_stock >= 0,
                forall|i: int|
                    0 <= i < self.spec_ledger().entries@.len() ==> self.spec_catalog().has_product(
                        (#[trigger] self.spec_ledger().entries@[i]).product_id,
                    ),
                self.spec_ledger().entries@ == before.spec_ledger().entries@ + sale_entries(
                    s.take(k as int),
                    start,
                    timestamp,
                    invoice_id,
                ),
            decreases s.len() - k,
        {
            let l = lines[k];
            assert(before.spec_catalog().has_product(s[k as int].product_id));
            assert(before.in_stock_at(s, k as int));
            let idx = self.catalog.product_index(l.product_id).unwrap();
            let ghost old_entries = self.spec_ledger().entries@;
            let ghost old_products = self.spec_catalog().products@;
            let cur = self.catalog.products[idx].current_stock;
            proof {
                assert(s.take(k + 1).drop_last() =~= s.take(k as int));
                assert(s.take(k + 1).last() == l);
            }
            self.ledger.append(l.product_id, -l.quantity, StockReason::Sale, Some(invoice_id), timestamp);
            self.catalog.products[idx].current_stock = cur - l.quantity;
            proof {
                let e = self.spec_ledger().entries@.last();
                assert(self.spec_ledger().entries@ == old_entries.push(e));
                assert forall|i: int| 0 <= i < before.spec_catalog().products@.len() implies same_except_stock(
                    #[trigger] self.spec_catalog().products@[i],
                    before.spec_catalog().products@[i],
                ) && self.spec_catalog().products@[i].current_stock == before.spec_catalog().products@[i].current_stock
                    - requested(s.take(k + 1), (i + 1) as u64) && self.spec_catalog().products@[i].current_stock
                    == stock_of(self.spec_ledger().entries@, (i + 1) as u64)
                    && self.spec_catalog().products@[i].current_stock >= 0 by {
                    lemma_stock_of_push(old_entries, e, (i + 1) as u64);
                    assert(old_products[i].current_stock == before.spec_catalog().products@[i].current_stock
                        - requested(s.take(k as int), (i + 1) as u64));
                }
                assert(sale_entries(s.take(k + 1), start, timestamp, invoice_id) =~= sale_entries(
                    s.take(k as int),
                    start,
                    timestamp,
                    invoice_id,
                ).push(e));
                assert(self.spec_ledger().entries@ =~= before.spec_ledger().entries@ + sale_entries(
                    s.take(k + 1),
                    start,
                    timestamp,
                    invoice_id,
                ));
            }
            k = k + 1;
        }
        proof {
            assert(s.take(s.len() as int) =~= s);
        }
    }
}

impl Store {
    /// Validates a sale, prices it and commits the invoice together with one
    /// ledger entry per line; returns the new invoice's id.
    ///
    /// The checks run in order: invoice number, customer, sales person, an
    /// empty list, unknown products, the line items and the sub-total, stock,
    /// room for ids. A request that fails any of them changes nothing.
    pub fn create_invoice(&mut self, req: &InvoiceRequest, timestamp: u64) -> (r: Result<u64, InvoiceError>)
        requires
            old(self).wf(),
        ensures
            final(self).wf(),
            r is Err ==> *final(self) == *old(self),
            r is Ok <==> old(self).accepts(req),
            old(self).header_error(req) is Some ==> r == Err::<u64, InvoiceError>(
                old(self).header_error(req).unwrap(),
            ),
            old(self).header_error(req) is None && !old(self).all_known(req.lines@) ==> exists|i: int|
                0 <= i < req.lines@.len() && !old(self).spec_catalog().has_product(req.lines@[i].product_id) && (
                forall|j: int|
                    0 <= j < i ==> old(self).spec_catalog().has_product((#[trigger] req.lines@[j]).product_id))
                    && r == Err::<u64, InvoiceError>(InvoiceError::UnknownProduct(req.lines@[i].product_id)),
            old(self).header_error(req) is None && old(self).all_known(req.lines@) ==> {
                let items = items_for(old(self).spec_catalog(), req.lines@);
                &&& !all_valid(items) ==> exists|i: usize, p: LineProblem|
                    i < items.len() && (forall|j: int| 0 <= j < i ==> valid_line(#[trigger] items[j]))
                        && problem_of(items[i as int]) == Some(p) && r == Err::<u64, InvoiceError>(
                        InvoiceError::InvalidLineItem(i, p),
                    )
                &&& all_valid(items) && sum_gross(items) > MAX_AMOUNT ==> r == Err::<u64, InvoiceError>(
                    InvoiceError::AmountTooLarge,
                )
                &&& all_valid(items) && sum_gross(items) <= MAX_AMOUNT && !old(self).all_in_stock(
                    req.lines@,
                ) ==> exists|i: int|
                    0 <= i < req.lines@.len() && !old(self).in_stock_at(req.lines@, i) && (forall|k: int|
                        0 <= k < i ==> #[trigger] old(self).in_stock_at(req.lines@, k)) && r == Err::<
                        u64,
                        InvoiceError,
                    >(
                        InvoiceError::InsufficientStock {
                            product_id: req.lines@[i].product_id,
                            requested: req.lines@[i].quantity,
                            available: (old(self).stock(req.lines@[i].product_id) - requested(
                                req.lines@.take(i),
                                req.lines@[i].product_id,
                            )) as i64,
                        },
                    )
                &&& all_valid(items) && sum_gross(items) <= MAX_AMOUNT && old(self).all_in_stock(req.lines@)
                    && !old(self).has_room(req.lines@) ==> r == Err::<u64, InvoiceError>(
                    InvoiceError::StorageFailure,
                )
            },
            r is Ok ==> old(self).committed(final(self), req, r.unwrap(), timestamp),
    {
        if self.number_in_use(&req.invoice_number) {
            return Err(InvoiceError::DuplicateInvoiceNumber);
        }
        if !self.catalog.customer_exists(req.customer_id) {
            return Err(InvoiceError::UnknownCustomer(req.customer_id));
        }
        match self.catalog.sales_person_active(req.sales_person_id) {
            None => {
                return Err(InvoiceError::UnknownSalesPerson(req.sales_person_id));
            },
            Some(false) => {
                return Err(InvoiceError::InactiveSalesPerson(req.sales_person_id));
            },
            Some(true) => {},
        }
        if req.lines.len() == 0 {
            return Err(InvoiceError::EmptyInvoice);
        }
        match self.first_unknown_product(&req.lines) {
            Some(i) => {
                return Err(InvoiceError::UnknownProduct(req.lines[i].product_id));
            },
            None => {},
        }
        let items = self.priced_items(&req.lines);
        let totals = match compute_totals(&items, req.is_gst_bill, req.same_state) {
            Ok(t) => t,
            Err(TaxError::EmptyInvoice) => {
                return Err(InvoiceError::EmptyInvoice);
            },
            Err(TaxError::InvalidLineItem(i, p)) => {
                return Err(InvoiceError::InvalidLineItem(i, p));
            },
            Err(TaxError::AmountTooLarge) => {
                return Err(InvoiceError::AmountTooLarge);
            },
        };
        assert forall|i: int| 0 <= i < req.lines@.len() implies (#[trigger] req.lines@[i]).quantity >= 0 by {
            assert(valid_line(items@[i]));
        }
        match self.first_short_line(&req.lines) {
            Some((i, avail)) => {
                return Err(
                    InvoiceError::InsufficientStock {
                        product_id: req.lines[i].product_id,
                        requested: req.lines[i].quantity,
                        available: avail,
                    },
                );
            },
            None => {},
        }
        let n_invoices = self.invoices.len();
        if n_invoices as u64 >= u64::MAX - 1 || self.ledger.len() as u64 >= u64::MAX - req.lines.len() as u64 {
            return Err(InvoiceError::StorageFailure);
        }
        let id = n_invoices as u64 + 1;
        let n_customers = self.catalog.customers.len();
        let n_sales_persons = self.catalog.sales_persons.len();
        assert(req.customer_id - 1 < n_customers && req.sales_person_id - 1 < n_sales_persons);
        let cidx = (req.customer_id - 1) as usize;
        let sidx = (req.sales_person_id - 1) as usize;
        let customer_name = self.catalog.customers[cidx].name.clone();
        let customer_phone = self.catalog.customers[cidx].phone.clone();
        let customer_address = copy_text(&self.catalog.customers[cidx].details.address);
        let customer_gstin = copy_text(&self.catalog.customers[cidx].details.gstin);
        let sales_person_name = self.catalog.sales_persons[sidx].name.clone();
        let ghost before = *self;
        self.commit_sale(&req.lines, id, timestamp);
        let invoice = Invoice {
            id,
            invoice_number: req.invoice_number.clone(),
            timestamp,
            customer_id: req.customer_id,
            customer_name,
            customer_phone,
            customer_address,
            customer_gstin,
            sales_person_id: req.sales_person_id,
            sales_person_name,
            is_gst_bill: req.is_gst_bill,
            same_state: req.same_state,
            totals,
            items,
            reverses: None,
        };
        self.invoices.push(invoice);
        proof {
            assert(self.spec_invoices().drop_last() =~= before.spec_invoices());
            assert forall|i: int, j: int| 0 <= i < j < self.spec_invoices().len() implies (
            #[trigger] self.spec_invoices()[i]).invoice_number@ != (
            #[trigger] self.spec_invoices()[j]).invoice_number@ by {
                if j == self.spec_invoices().len() - 1 {
                    assert(self.spec_invoices()[i] == before.spec_invoices()[i]);
                }
            }
            let last = self.spec_invoices().len() - 1;
            assert forall|i: int, j: int|
                0 <= i < self.spec_invoices().len() && 0 <= j < self.spec_invoices()[i].items@.len()
                    implies self.spec_catalog().has_product((#[trigger] self.spec_invoices()[i].items@[j]).product_id) by {
                if i < last {
                    assert(self.spec_invoices()[i] == before.spec_invoices()[i]);
                } else {
                    assert(self.spec_invoices()[i].items@[j] == line_item_for(before.spec_catalog(), req.lines@[j]));
                }
            }
            assert forall|i: int|
                0 <= i < self.spec_invoices().len() && (#[trigger] self.spec_invoices()[i]).reverses is None
                    implies all_valid(self.spec_invoices()[i].items@) by {
                if i < last {
                    assert(self.spec_invoices()[i] == before.spec_invoices()[i]);
                }
            }
        }
        Ok(id)
    }
}

/// The stock movements, one per line, that give back the goods of a sale.
pub open spec fn returned_lines(items: Seq<LineItem>) -> Seq<RequestLine> {
    Seq::new(items.len(), |i: int| RequestLine { product_id: items[i].product_id, quantity: items[i].quantity })
}

/// The line items of a sale with every quantity negated.
pub open spec fn negated_items(items: Seq<LineItem>) -> Seq<LineItem> {
    Seq::new(
        items.len(),
        |i: int|
            LineItem {
                product_id: items[i].product_id,
                quantity: (-items[i].quantity) as i64,
                unit_price: items[i].unit_price,
                discount_bp: items[i].discount_bp,
                gst_rate_bp: items[i].gst_rate_bp,
            },
    )
}

/// The ledger entries that a reversal of invoice `original_id` appends.
pub open spec fn return_entries(s: Seq<RequestLine>, start: int, timestamp: u64, original_id: u64) -> Seq<
    StockEntry,
> {
    Seq::new(
        s.len(),
        |j: int|
            StockEntry {
                id: (start + j + 1) as u64,
                timestamp,
                product_id: s[j].product_id,
                change_amount: s[j].quantity,
                reason: StockReason::Reversal,
                reference_id: Some(original_id),
            },
    )
}

impl Store {
    /// Giving back line `k` and the earlier lines keeps the stock representable.
    pub open spec fn fits_at(&self, s: Seq<RequestLine>, k: int) -> bool {
        0 <= self.stock(s[k].product_id) + requested(s.take(k + 1), s[k].product_id) <= i64::MAX
    }

    pub open spec fn all_fit(&self, s: Seq<RequestLine>) -> bool {
        forall|k: int| 0 <= k < s.len() ==> #[trigger] self.fits_at(s, k)
    }

    pub open spec fn is_reversed(&self, id: u64) -> bool {
        exists|i: int| 0 <= i < self.spec_invoices().len() && (#[trigger] self.spec_invoices()[i]).reverses == Some(id)
    }

    /// The first failure among the checks on which invoice may be reversed,
    /// in order: number, existence, and whether it may be reversed at all.
    pub open spec fn reversal_header_error(&self, original_id: u64, n: Seq<char>) -> Option<InvoiceError> {
        if self.number_taken(n) {
            Some(InvoiceError::DuplicateInvoiceNumber)
        } else if !(1 <= original_id <= self.spec_invoices().len()) {
            Some(InvoiceError::UnknownInvoice(original_id))
        } else if self.spec_invoices()[original_id - 1].reverses is Some || self.is_reversed(original_id) {
            Some(InvoiceError::NotReversible(original_id))
        } else {
            None
        }
    }

    pub open spec fn returned_by(&self, original_id: u64) -> Seq<RequestLine> {
        returned_lines(self.spec_invoices()[original_id - 1].items@)
    }

    /// Every check on the reversal passes.
    pub open spec fn accepts_reversal(&self, original_id: u64, n: Seq<char>) -> bool {
        &&& self.reversal_header_error(original_id, n) is None
        &&& self.all_fit(self.returned_by(original_id))
        &&& self.has_room(self.returned_by(original_id))
    }

    /// `after` is `self` with invoice `original_id` reversed by invoice `id`.
    pub open spec fn reversed(&self, after: &Store, original_id: u64, n: Seq<char>, id: u64, timestamp: u64) -> bool {
        let orig = self.spec_invoices()[original_id - 1];
        let l = returned_lines(orig.items@);
        let inv = after.spec_invoices().last();
        &&& id == self.spec_invoices().len() + 1
        &&& after.spec_catalog().customers@ == self.spec_catalog().customers@
        &&& after.spec_catalog().sales_persons@ == self.spec_catalog().sales_persons@
        &&& after.spec_catalog().products@.len() == self.spec_catalog().products@.len()
        &&& forall|i: int|
            0 <= i < self.spec_catalog().products@.len() ==> same_except_stock(
                #[trigger] after.spec_catalog().products@[i],
                self.spec_catalog().products@[i],
            ) && after.spec_catalog().products@[i].current_stock == self.spec_catalog().products@[i].current_stock
                + requested(l, (i + 1) as u64)
        &&& after.spec_ledger().entries@ == self.spec_ledger().entries@ + return_entries(
            l,
            self.spec_ledger().entries@.len() as int,
            timestamp,
            original_id,
        )
        &&& after.spec_invoices().len() == self.spec_invoices().len() + 1
        &&& after.spec_invoices().drop_last() == self.spec_invoices()
        &&& inv.id == id
        &&& inv.invoice_number@ == n
        &&& inv.timestamp == timestamp
        &&& inv.customer_id == orig.customer_id
        &&& inv.customer_name == orig.customer_name
        &&& inv.customer_phone == orig.customer_phone
        &&& inv.customer_address == orig.customer_address
        &&& inv.customer_gstin == orig.customer_gstin
        &&& inv.sales_person_id == orig.sales_person_id
        &&& inv.sales_person_name == orig.sales_person_name
        &&& inv.is_gst_bill == orig.is_gst_bill
        &&& inv.same_state == orig.same_state
        &&& inv.totals == orig.totals
        &&& inv.items@ == negated_items(orig.items@)
        &&& inv.reverses == Some(original_id)
    }

    fn reversal_exists(&self, id: u64) -> (r: bool)
        ensures
            r == self.is_reversed(id),
    {
        let mut i: usize = 0;
        while i < self.invoices.len()
            invariant
                i <= self.spec_invoices().len(),
                forall|j: int| 0 <= j < i ==> (#[trigger] self.spec_invoices()[j]).reverses != Some(id),
            decreases self.spec_invoices().len() - i,
        {
            if self.invoices[i].reverses == Some(id) {
                return true;
            }
            i = i + 1;
        }
        false
    }

    /// The first line whose return would not fit in the stock.
    fn first_overflow_line(&self, lines: &Vec<RequestLine>) -> (r: Option<usize>)
        requires
            self.wf(),
            self.all_known(lines@),
        ensures
            r is None <==> self.all_fit(lines@),
            r is Some ==> r.unwrap() < lines@.len() && !self.fits_at(lines@, r.unwrap() as int) && forall|k: int|
                0 <= k < r.unwrap() ==> #[trigger] self.fits_at(lines@, k),
    {
        let ghost s = lines@;
        let mut i: usize = 0;
        while i < lines.len()
            invariant
                s == lines@,
                self.wf(),
                self.all_known(s),
                i <= s.len(),
                forall|k: int| 0 <= k < i ==> #[trigger] self.fits_at(s, k),
            decreases s.len() - i,
        {
            let pid = lines[i].product_id;
            assert(self.spec_catalog().has_product(s[i as int].product_id));
            let mut acc: i128 = 0;
            let mut j: usize = 0;
            while j <= i
                invariant
                    s == lines@,
                    i < s.len(),
                    s.len() <= usize::MAX,
                    j <= i + 1,
                    acc == requested(s.take(j as int), pid),
                    -(j as int) * 0x8000_0000_0000_0000 <= acc <= (j as int) * 0x8000_0000_0000_0000,
                decreases i + 1 - j,
            {
                proof {
                    assert(s.take(j + 1).drop_last() =~= s.take(j as int));
                    assert((j as int) * 0x8000_0000_0000_0000 + 0x8000_0000_0000_0000 < 0x7fff_ffff_ffff_ffff_ffff_ffff_ffff_ffff)
                        by (nonlinear_arith)
                        requires
                            j + 1 < 0x1_0000_0000_0000_0000,
                    ;
                }
                if lines[j].product_id == pid {
                    acc = acc + lines[j].quantity as i128;
                }
                j = j + 1;
            }
            let idx = self.catalog.product_index(pid).unwrap();
            let stock = self.catalog.products[idx].current_stock as i128;
            if acc < -stock || acc > i64::MAX as i128 - stock {
                assert(!self.fits_at(s, i as int));
                return Some(i);
            }
            i = i + 1;
        }
        None
    }

    fn returned(items: &Vec<LineItem>) -> (r: Vec<RequestLine>)
        ensures
            r@ == returned_lines(items@),
    {
        let mut r: Vec<RequestLine> = Vec::new();
        let mut i: usize = 0;
        while i < items.len()
            invariant
                i <= items@.len(),
                r@.len() == i,
                forall|j: int| 0 <= j < i ==> #[trigger] r@[j] == returned_lines(items@)[j],
            decreases items@.len() - i,
        {
            r.push(RequestLine { product_id: items[i].product_id, quantity: items[i].quantity });
            i = i + 1;
        }
        assert(r@ =~= returned_lines(items@));
        r
    }

    fn negated(items: &Vec<LineItem>) -> (r: Vec<LineItem>)
        requires
            all_valid(items@),
        ensures
            r@ == negated_items(items@),
    {
        let mut r: Vec<LineItem> = Vec::new();
        let mut i: usize = 0;
        while i < items.len()
            invariant
                i <= items@.len(),
                all_valid(items@),
                r@.len() == i,
                forall|j: int| 0 <= j < i ==> #[trigger] r@[j] == negated_items(items@)[j],
            decreases items@.len() - i,
        {
            let li = items[i];
            assert(valid_line(items@[i as int]));
            r.push(
                LineItem {
                    product_id: li.product_id,
                    quantity: -li.quantity,
                    unit_price: li.unit_price,
                    discount_bp: li.discount_bp,
                    gst_rate_bp: li.gst_rate_bp,
                },
            );
            i = i + 1;
        }
        assert(r@ =~= negated_items(items@));
        r
    }

    /// Appends one return entry per line and raises each product's stock.
    fn commit_return(&mut self, lines: &Vec<RequestLine>, original_id: u64, timestamp: u64)
        requires
            old(self).wf(),
            old(self).all_known(lines@),
            old(self).all_fit(lines@),
            old(self).spec_ledger().entries@.len() + lines@.len() < u64::MAX,
        ensures
            final(self).spec_catalog().wf(),
            final(self).spec_ledger().wf(),
            final(self).spec_invoices() == old(self).spec_invoices(),
            final(self).spec_catalog().customers@ == old(self).spec_catalog().customers@,
            final(self).spec_catalog().sales_persons@ == old(self).spec_catalog().sales_persons@,
            final(self).spec_catalog().products@.len() == old(self).spec_catalog().products@.len(),
            forall|i: int|
                0 <= i < old(self).spec_catalog().products@.len() ==> same_except_stock(
                    #[trigger] final(self).spec_catalog().products@[i],
                    old(self).spec_catalog().products@[i],
                ) && final(self).spec_catalog().products@[i].current_stock == old(self).spec_catalog().products@[i].current_stock
                    + requested(lines@, (i + 1) as u64) && final(self).spec_catalog().products@[i].current_stock
                    == stock_of(final(self).spec_ledger().entries@, (i + 1) as u64)
                    && final(self).spec_catalog().products@[i].current_stock >= 0,
            forall|i: int|
                0 <= i < final(self).spec_ledger().entries@.len() ==> final(self).spec_catalog().has_product(
                    (#[trigger] final(self).spec_ledger().entries@[i]).product_id,
                ),
            final(self).spec_ledger().entries@ == old(self).spec_ledger().entries@ + return_entries(
                lines@,
                old(self).spec_ledger().entries@.len() as int,
                timestamp,
                original_id,
            ),
    {
        let ghost s = lines@;
        let ghost before = *self;
        let ghost start = self.spec_ledger().entries@.len() as int;
        let mut k: usize = 0;
        while k < lines.len()
            invariant
                s == lines@,
                before.wf(),
                before.all_known(s),
                before.all_fit(s),
                start == before.spec_ledger().entries@.len(),
                start + s.len() < u64::MAX,
                k <= s.len(),
                self.spec_catalog().wf(),
                self.spec_ledger().wf(),
                self.spec_invoices() == before.spec_invoices(),
                self.spec_catalog().customers@ == before.spec_catalog().customers@,
                self.spec_catalog().sales_persons@ == before.spec_catalog().sales_persons@,
                self.spec_catalog().products@.len() == before.spec_catalog().products@.len(),
                forall|i: int|
                    0 <= i < before.spec_catalog().products@.len() ==> same_except_stock(
                        #[trigger] self.spec_catalog().products@[i],
                        before.spec_catalog().products@[i],
                    ) && self.spec_catalog().products@[i].current_stock == before.spec_catalog().products@[i].current_stock
                        + requested(s.take(k as int), (i + 1) as u64) && self.spec_catalog().products@[i].current_stock
                        == stock_of(self.spec_ledger().entries@, (i + 1) as u64)
                        && self.spec_catalog().products@[i].current_stock >= 0,
                forall|i: int|
                    0 <= i < self.spec_ledger().entries@.len() ==> self.spec_catalog().has_product(
                        (#[trigger] self.spec_ledger().entries@[i]).product_id,
                    ),
                self.spec_ledger().entries@ == before.spec_ledger().entries@ + return_entries(
                    s.take(k as int),
                    start,
                    timestamp,
                    original_id,
                ),
            decreases s.len() - k,
        {
            let l = lines[k];
            assert(before.spec_catalog().has_product(s[k as int].product_id));
            assert(before.fits_at(s, k as int));
            let idx = self.catalog.product_index(l.product_id).unwrap();
            let ghost old_entries = self.spec_ledger().entries@;
            let ghost old_products = self.spec_catalog().products@;
            let cur = self.catalog.products[idx].current_stock;
            proof {
                assert(s.take(k + 1).drop_last() =~= s.take(k as int));
                assert(s.take(k + 1).last() == l);
            }
            self.ledger.append(l.product_id, l.quantity, StockReason::Reversal, Some(original_id), timestamp);
            self.catalog.products[idx].current_stock = cur + l.quantity;
            proof {
                let e = self.spec_ledger().entries@.last();
                assert(self.spec_ledger().entries@ == old_entries.push(e));
                assert forall|i: int| 0 <= i < before.spec_catalog().products@.len() implies same_except_stock(
                    #[trigger] self.spec_catalog().products@[i],
                    before.spec_catalog().products@[i],
                ) && self.spec_catalog().products@[i].current_stock == before.spec_catalog().products@[i].current_stock
                    + requested(s.take(k + 1), (i + 1) as u64) && self.spec_catalog().products@[i].current_stock
                    == stock_of(self.spec_ledger().entries@, (i + 1) as u64)
                    && self.spec_catalog().products@[i].current_stock >= 0 by {
                    lemma_stock_of_push(old_entries, e, (i + 1) as u64);
                    assert(old_products[i].current_stock == before.spec_catalog().products@[i].current_stock
                        + requested(s.take(k as int), (i + 1) as u64));
                }
                assert(return_entries(s.take(k + 1), start, timestamp, original_id) =~= return_entries(
                    s.take(k as int),
                    start,
                    timestamp,
                    original_id,
                ).push(e));
                assert(self.spec_ledger().entries@ =~= before.spec_ledger().entries@ + return_entries(
                    s.take(k + 1),
                    start,
                    timestamp,
                    original_id,
                ));
            }
            k = k + 1;
        }
        proof {
            assert(s.take(s.len() as int) =~= s);
        }
    }
}

impl Store {
    /// Reverses a sale: records a credit invoice, numbered `invoice_number`
    /// and marked by `reverses`, whose line quantities are the sale's negated
    /// and whose totals are the sale's amounts given back; and returns the
    /// goods to stock with entries that name the sale. A sale is reversed at
    /// most once, and a reversal is never reversed.
    pub fn reverse_invoice(&mut self, original_id: u64, invoice_number: &String, timestamp: u64) -> (r: Result<
        u64,
        InvoiceError,
    >)
        requires
            old(self).wf(),
        ensures
            final(self).wf(),
            r is Err ==> *final(self) == *old(self),
            r is Ok <==> old(self).accepts_reversal(original_id, invoice_number@),
            old(self).reversal_header_error(original_id, invoice_number@) is Some ==> r == Err::<
                u64,
                InvoiceError,
            >(old(self).reversal_header_error(original_id, invoice_number@).unwrap()),
            old(self).reversal_header_error(original_id, invoice_number@) is None && !old(self).all_fit(
                old(self).returned_by(original_id),
            ) ==> exists|i: int|
                0 <= i < old(self).returned_by(original_id).len() && !old(self).fits_at(
                    old(self).returned_by(original_id),
                    i,
                ) && (forall|k: int|
                    0 <= k < i ==> #[trigger] old(self).fits_at(old(self).returned_by(original_id), k))
                    && r == Err::<u64, InvoiceError>(
                    InvoiceError::StockOverflow(old(self).returned_by(original_id)[i].product_id),
                ),
            old(self).reversal_header_error(original_id, invoice_number@) is None && old(self).all_fit(
                old(self).returned_by(original_id),
            ) && !old(self).has_room(old(self).returned_by(original_id)) ==> r == Err::<u64, InvoiceError>(
                InvoiceError::StorageFailure,
            ),
            r is Ok ==> old(self).reversed(final(self), original_id, invoice_number@, r.unwrap(), timestamp),
    {
        if self.number_in_use(invoice_number) {
            return Err(InvoiceError::DuplicateInvoiceNumber);
        }
        let n_invoices = self.invoices.len();
        if original_id < 1 || original_id > n_invoices as u64 {
            return Err(InvoiceError::UnknownInvoice(original_id));
        }
        let oidx = (original_id - 1) as usize;
        if self.invoices[oidx].reverses.is_some() || self.reversal_exists(original_id) {
            return Err(InvoiceError::NotReversible(original_id));
        }
        let lines = Store::returned(&self.invoices[oidx].items);
        assert forall|i: int| 0 <= i < lines@.len() implies self.spec_catalog().has_product(
            (#[trigger] lines@[i]).product_id,
        ) by {
            assert(self.spec_catalog().has_product(self.spec_invoices()[oidx as int].items@[i].product_id));
        }
        match self.first_overflow_line(&lines) {
            Some(i) => {
                return Err(InvoiceError::StockOverflow(lines[i].product_id));
            },
            None => {},
        }
        if n_invoices as u64 >= u64::MAX - 1 || self.ledger.len() as u64 >= u64::MAX - lines.len() as u64 {
            return Err(InvoiceError::StorageFailure);
        }
        let id = n_invoices as u64 + 1;
        let ghost before = *self;
        assert(before.spec_invoices()[oidx as int].id == original_id);
        let items = Store::negated(&self.invoices[oidx].items);
        let orig = &self.invoices[oidx];
        let invoice = Invoice {
            id,
            invoice_number: invoice_number.clone(),
            timestamp,
            customer_id: orig.customer_id,
            customer_name: orig.customer_name.clone(),
            customer_phone: orig.customer_phone.clone(),
            customer_address: copy_text(&orig.customer_address),
            customer_gstin: copy_text(&orig.customer_gstin),
            sales_person_id: orig.sales_person_id,
            sales_person_name: orig.sales_person_name.clone(),
            is_gst_bill: orig.is_gst_bill,
            same_state: orig.same_state,
            totals: orig.totals,
            items,
            reverses: Some(original_id),
        };
        self.commit_return(&lines, original_id, timestamp);
        self.invoices.push(invoice);
        proof {
            assert(self.spec_invoices().drop_last() =~= before.spec_invoices());
            let last = self.spec_invoices().len() - 1;
            assert forall|i: int, j: int| 0 <= i < j < self.spec_invoices().len() implies (
            #[trigger] self.spec_invoices()[i]).invoice_number@ != (
            #[trigger] self.spec_invoices()[j]).invoice_number@ by {
                if j == last {
                    assert(self.spec_invoices()[i] == before.spec_invoices()[i]);
                }
            }
            assert forall|i: int, j: int|
                0 <= i < self.spec_invoices().len() && 0 <= j < self.spec_invoices()[i].items@.len()
                    implies self.spec_catalog().has_product((#[trigger] self.spec_invoices()[i].items@[j]).product_id) by {
                if i < last {
                    assert(self.spec_invoices()[i] == before.spec_invoices()[i]);
                } else {
                    assert(self.spec_invoices()[i].items@[j].product_id == before.spec_invoices()[oidx as int].items@[j].product_id);
                }
            }
            assert forall|i: int|
                0 <= i < self.spec_invoices().len() && (#[trigger] self.spec_invoices()[i]).reverses is None
                    implies all_valid(self.spec_invoices()[i].items@) by {
                if i < last {
                    assert(self.spec_invoices()[i] == before.spec_invoices()[i]);
                }
            }
            assert forall|i: int| 0 <= i < self.spec_invoices().len() implies (#[trigger] self.spec_invoices()[i]).id == i + 1
                && totals_consistent(
                self.spec_invoices()[i].totals,
                self.spec_invoices()[i].is_gst_bill,
                self.spec_invoices()[i].same_state,
            ) by {
                if i < last {
                    assert(self.spec_invoices()[i] == before.spec_invoices()[i]);
                } else {
                    assert(before.spec_invoices()[oidx as int].id == oidx + 1);
                }
            }
        }
        Ok(id)
    }
}

} // verus!
