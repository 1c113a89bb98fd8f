//! Point-in-time copies of the whole dataset, and their restoration.

use vstd::prelude::*;
use crate::access::{Account, Accounts, Operation, Session, allowed, authorize};
use crate::settings::{Setting, Settings};
use crate::catalog::{Catalog, Customer, Product, SalesPerson, copy_text};
use crate::ledger::{Ledger, StockEntry, stock_of};
use crate::store::{Invoice, Store, totals_consistent};
use crate::tax::{LineItem, Totals, all_valid, line_problem, valid_line, FULL_RATE};

verus! {

/// The layout of the data that snapshots of this version carry.
pub const SCHEMA_VERSION: u64 = 1;

#[derive(Clone, Copy, Debug, PartialEq, Eq, Structural)]
pub enum SnapshotKind {
    Manual,
    Auto,
}

#[derive(Clone, Copy, Debug, PartialEq, Eq, Structural)]
pub enum SnapshotError {
    Unauthorized(Operation),
    /// The snapshot is of another schema version, or its data is not consistent.
    CorruptSnapshot,
}

/// Every table of the application: sales data, settings and user accounts.
/// Stored snapshots (`Backups`) stand apart: a snapshot does not hold the
/// snapshots taken before it.
pub struct Dataset {
    pub store: Store,
    pub settings: Settings,
    pub accounts: Accounts,
}

pub struct Snapshot {
    pub timestamp: u64,
    pub kind: SnapshotKind,
    pub schema_version: u64,
    /// The size of the payload, counted in rows over all tables.
    pub size: u128,
    pub data: Dataset,
}

pub open spec fn same_invoice(a: Invoice, b: Invoice) -> bool {
    &&& a.id == b.id
    &&& a.invoice_number == b.invoice_number
    &&& a.timestamp == b.timestamp
    &&& a.customer_id == b.customer_id
    &&& a.customer_name == b.customer_name
    &&& a.customer_phone == b.customer_phone
    &&& a.customer_address == b.customer_address
    &&& a.customer_gstin == b.customer_gstin
    &&& a.sales_person_id == b.sales_person_id
    &&& a.sales_person_name == b.sales_person_name
    &&& a.is_gst_bill == b.is_gst_bill
    &&& a.same_state == b.same_state
    &&& a.totals == b.totals
    &&& a.items@ == b.items@
    &&& a.reverses == b.reverses
}

/// The two stores hold the same rows in every table.
pub open spec fn same_store(a: &Store, b: &Store) -> bool {
    &&& a.spec_catalog().products@ == b.spec_catalog().products@
    &&& a.spec_catalog().customers@ == b.spec_catalog().customers@
    &&& a.spec_catalog().sales_persons@ == b.spec_catalog().sales_persons@
    &&& a.spec_ledger().entries@ == b.spec_ledger().entries@
    &&& a.spec_invoices().len() == b.spec_invoices().len()
    &&& forall|i: int| 0 <= i < a.spec_invoices().len() ==> same_invoice(#[trigger] a.spec_invoices()[i], b.spec_invoices()[i])
}

/// The two datasets hold the same rows in every table.
pub open spec fn same_dataset(a: &Dataset, b: &Dataset) -> bool {
    &&& same_store(&a.store, &b.store)
    &&& a.settings.spec_entries() == b.settings.spec_entries()
    &&& a.accounts.spec_accounts() == b.accounts.spec_accounts()
}

pub open spec fn row_count(d: &Dataset) -> nat {
    d.store.spec_catalog().products@.len() + d.store.spec_catalog().customers@.len() + d.store.spec_catalog().sales_persons@.len()
        + d.store.spec_ledger().entries@.len() + d.store.spec_invoices().len() + d.settings.spec_entries().len()
        + d.accounts.spec_accounts().len()
}

impl Dataset {
    pub open spec fn wf(&self) -> bool {
        &&& self.store.wf()
        &&& self.settings.wf()
        &&& self.accounts.wf()
    }
}

impl Snapshot {
    /// The snapshot holds exactly the rows of `s`, under the current schema.
    pub open spec fn captures(&self, d: &Dataset) -> bool {
        &&& self.schema_version == SCHEMA_VERSION
        &&& same_dataset(&self.data, d)
        &&& self.size == row_count(d)
    }
}

/// Consistency depends on the rows alone.
pub proof fn lemma_same_store_wf(a: &Store, b: &Store)
    requires
        same_store(a, b),
        b.wf(),
    ensures
        a.wf(),
{
    assert forall|i: int| 0 <= i < a.spec_invoices().len() implies (#[trigger] a.spec_invoices()[i]).id == i + 1
        && totals_consistent(a.spec_invoices()[i].totals, a.spec_invoices()[i].is_gst_bill, a.spec_invoices()[i].same_state) by {
        assert(same_invoice(a.spec_invoices()[i], b.spec_invoices()[i]));
    }
    assert forall|i: int, j: int| 0 <= i < j < a.spec_invoices().len() implies (
    #[trigger] a.spec_invoices()[i]).invoice_number@ != (#[trigger] a.spec_invoices()[j]).invoice_number@ by {
        assert(same_invoice(a.spec_invoices()[i], b.spec_invoices()[i]));
        assert(same_invoice(a.spec_invoices()[j], b.spec_invoices()[j]));
    }
}

fn copy_product(p: &Product) -> (r: Product)
    ensures
        r == *p,
{
    Product {
        id: p.id,
        name: p.name.clone(),
        details: p.details.copy(),
        mrp: p.mrp,
        discount_bp: p.discount_bp,
        selling_price: p.selling_price,
        purchase_price: p.purchase_price,
        gst_rate_bp: p.gst_rate_bp,
        current_stock: p.current_stock,
        min_stock_level: p.min_stock_level,
    }
}

fn copy_products(v: &Vec<Product>) -> (r: Vec<Product>)
    ensures
        r@ == v@,
{
    let mut r: Vec<Product> = Vec::new();
    let mut i: usize = 0;
    while i < v.len()
        invariant
            i <= v@.len(),
            r@ == v@.take(i as int),
        decreases v@.len() - i,
    {
        r.push(copy_product(&v[i]));
        assert(r@ =~= v@.take(i + 1));
        i = i + 1;
    }
    assert(v@.take(v@.len() as int) =~= v@);
    r
}

fn copy_customers(v: &Vec<Customer>) -> (r: Vec<Customer>)
    ensures
        r@ == v@,
{
    let mut r: Vec<Customer> = Vec::new();
    let mut i: usize = 0;
    while i < v.len()
        invariant
            i <= v@.len(),
            r@ == v@.take(i as int),
        decreases v@.len() - i,
    {
        let c = &v[i];
        r.push(Customer { id: c.id, name: c.name.clone(), phone: c.phone.clone(), details: c.details.copy() });
        assert(r@ =~= v@.take(i + 1));
        i = i + 1;
    }
    assert(v@.take(v@.len() as int) =~= v@);
    r
}

fn copy_sales_persons(v: &Vec<SalesPerson>) -> (r: Vec<SalesPerson>)
    ensures
        r@ == v@,
{
    let mut r: Vec<SalesPerson> = Vec::new();
    let mut i: usize = 0;
    while i < v.len()
        invariant
            i <= v@.len(),
            r@ == v@.take(i as int),
        decreases v@.len() - i,
    {
        let p = &v[i];
        r.push(SalesPerson { id: p.id, name: p.name.clone(), is_active: p.is_active });
        assert(r@ =~= v@.take(i + 1));
        i = i + 1;
    }
    assert(v@.take(v@.len() as int) =~= v@);
    r
}

fn copy_entries(v: &Vec<StockEntry>) -> (r: Vec<StockEntry>)
    ensures
        r@ == v@,
{
    let mut r: Vec<StockEntry> = Vec::new();
    let mut i: usize = 0;
    while i < v.len()
        invariant
            i <= v@.len(),
            r@ == v@.take(i as int),
        decreases v@.len() - i,
    {
        r.push(v[i]);
        assert(r@ =~= v@.take(i + 1));
        i = i + 1;
    }
    assert(v@.take(v@.len() as int) =~= v@);
    r
}

fn copy_items(v: &Vec<LineItem>) -> (r: Vec<LineItem>)
    ensures
        r@ == v@,
{
    let mut r: Vec<LineItem> = Vec::new();
    let mut i: usize = 0;
    while i < v.len()
        invariant
            i <= v@.len(),
            r@ == v@.take(i as int),
        decreases v@.len() - i,
    {
        r.push(v[i]);
        assert(r@ =~= v@.take(i + 1));
        i = i + 1;
    }
    assert(v@.take(v@.len() as int) =~= v@);
    r
}

fn copy_invoices(v: &Vec<Invoice>) -> (r: Vec<Invoice>)
    ensures
        r@.len() == v@.len(),
        forall|i: int| 0 <= i < v@.len() ==> same_invoice(#[trigger] r@[i], v@[i]),
{
    let mut r: Vec<Invoice> = Vec::new();
    let mut i: usize = 0;
    while i < v.len()
        invariant
            i <= v@.len(),
            r@.len() == i,
            forall|j: int| 0 <= j < i ==> same_invoice(#[trigger] r@[j], v@[j]),
        decreases v@.len() - i,
    {
        let a = &v[i];
        r.push(
            Invoice {
                id: a.id,
                invoice_number: a.invoice_number.clone(),
                timestamp: a.timestamp,
                customer_id: a.customer_id,
                customer_name: a.customer_name.clone(),
                customer_phone: a.customer_phone.clone(),
                customer_address: copy_text(&a.customer_address),
                customer_gstin: copy_text(&a.customer_gstin),
                sales_person_id: a.sales_person_id,
                sales_person_name: a.sales_person_name.clone(),
                is_gst_bill: a.is_gst_bill,
                same_state: a.same_state,
                totals: a.totals,
                items: copy_items(&a.items),
                reverses: a.reverses,
            },
        );
        i = i + 1;
    }
    r
}

fn copy_store(s: &Store) -> (r: Store)
    ensures
        same_store(&r, s),
{
    Store {
        catalog: Catalog {
            products: copy_products(&s.catalog.products),
            customers: copy_customers(&s.catalog.customers),
            sales_persons: copy_sales_persons(&s.catalog.sales_persons),
        },
        ledger: Ledger { entries: copy_entries(&s.ledger.entries) },
        invoices: copy_invoices(&s.invoices),
    }
}

fn totals_ok(t: &Totals, is_gst: bool, same_state: bool) -> (r: bool)
    ensures
        r == totals_consistent(*t, is_gst, same_state),
{
    let balanced = t.grand_total as i128 == t.taxable_amount as i128 + t.total_tax as i128 + t.round_off as i128;
    let summed = t.total_tax as u128 == t.cgst as u128 + t.sgst as u128 + t.igst as u128;
    let split = if !is_gst {
        t.cgst == 0 && t.sgst == 0 && t.igst == 0
    } else if same_state {
        t.igst == 0 && t.cgst == t.sgst
    } else {
        t.cgst == 0 && t.sgst == 0
    };
    balanced && summed && split
}

impl Store {
    /// Checks every invariant of a consistent store, row by row.
    pub fn is_consistent(&self) -> (r: bool)
        ensures
            r == self.wf(),
    {
        let np = self.catalog.products.len();
        let mut i: usize = 0;
        while i < np
            invariant
                np == self.spec_catalog().products@.len(),
                i <= np,
                forall|j: int|
                    0 <= j < i ==> (#[trigger] self.spec_catalog().products@[j]).id == j + 1
                        && self.spec_catalog().products@[j].discount_bp <= FULL_RATE
                        && self.spec_catalog().products@[j].gst_rate_bp <= FULL_RATE
                        && self.spec_catalog().products@[j].selling_price >= 0
                        && self.spec_catalog().products@[j].current_stock == stock_of(
                        self.spec_ledger().entries@,
                        (j + 1) as u64,
                    ) && self.spec_catalog().products@[j].current_stock >= 0,
            decreases np - i,
        {
            let p = &self.catalog.products[i];
            if p.id != i as u64 + 1 || p.discount_bp > FULL_RATE || p.gst_rate_bp > FULL_RATE
                || p.selling_price < 0 || p.current_stock < 0 {
                return false;
            }
            if self.ledger.recompute(i as u64 + 1) != p.current_stock as i128 {
                return false;
            }
            i = i + 1;
        }
        let nc = self.catalog.customers.len();
        let mut i: usize = 0;
        while i < nc
            invariant
                nc == self.spec_catalog().customers@.len(),
                i <= nc,
                forall|j: int| 0 <= j < i ==> (#[trigger] self.spec_catalog().customers@[j]).id == j + 1,
            decreases nc - i,
        {
            if self.catalog.customers[i].id != i as u64 + 1 {
                return false;
            }
            i = i + 1;
        }
        let ns = self.catalog.sales_persons.len();
        let mut i: usize = 0;
        while i < ns
            invariant
                ns == self.spec_catalog().sales_persons@.len(),
                i <= ns,
                forall|j: int| 0 <= j < i ==> (#[trigger] self.spec_catalog().sales_persons@[j]).id == j + 1,
            decreases ns - i,
        {
            if self.catalog.sales_persons[i].id != i as u64 + 1 {
                return false;
            }
            i = i + 1;
        }
        let ne = self.ledger.entries.len();
        let mut i: usize = 0;
        while i < ne
            invariant
                ne == self.spec_ledger().entries@.len(),
                np == self.spec_catalog().products@.len(),
                i <= ne,
                forall|j: int|
                    0 <= j < i ==> (#[trigger] self.spec_ledger().entries@[j]).id == j + 1
                        && self.spec_catalog().has_product(self.spec_ledger().entries@[j].product_id),
            decreases ne - i,
        {
            let e = self.ledger.entries[i];
            if e.id != i as u64 + 1 || e.product_id < 1 || e.product_id > np as u64 {
                return false;
            }
            i = i + 1;
        }
        let ni = self.invoices.len();
        let mut i: usize = 0;
        while i < ni
            invariant
                ni == self.spec_invoices().len(),
                i <= ni,
                forall|j: int|
                    0 <= j < i ==> (#[trigger] self.spec_invoices()[j]).id == j + 1 && totals_consistent(
                        self.spec_invoices()[j].totals,
                        self.spec_invoices()[j].is_gst_bill,
                        self.spec_invoices()[j].same_state,
                    ),
                forall|a: int, b: int|
                    0 <= a < b < i ==> (#[trigger] self.spec_invoices()[a]).invoice_number@
                        != (#[trigger] self.spec_invoices()[b]).invoice_number@,
                np == self.spec_catalog().products@.len(),
                forall|a: int, j: int|
                    0 <= a < i && 0 <= j < self.spec_invoices()[a].items@.len() ==> self.spec_catalog().has_product(
                        (#[trigger] self.spec_invoices()[a].items@[j]).product_id,
                    ),
                forall|a: int|
                    0 <= a < i && (#[trigger] self.spec_invoices()[a]).reverses is None ==> all_valid(
                        self.spec_invoices()[a].items@,
                    ),
            decreases ni - i,
        {
            let inv = &self.invoices[i];
            if inv.id != i as u64 + 1 || !totals_ok(&inv.totals, inv.is_gst_bill, inv.same_state) {
                return false;
            }
            let sale = inv.reverses.is_none();
            let mut j: usize = 0;
            while j < inv.items.len()
                invariant
                    ni == self.spec_invoices().len(),
                    i < ni,
                    *inv == self.spec_invoices()[i as int],
                    sale == (inv.reverses is None),
                    np == self.spec_catalog().products@.len(),
                    j <= inv.items@.len(),
                    forall|m: int| 0 <= m < j ==> self.spec_catalog().has_product((#[trigger] inv.items@[m]).product_id),
                    sale ==> forall|m: int| 0 <= m < j ==> valid_line(#[trigger] inv.items@[m]),
                decreases inv.items@.len() - j,
            {
                let li = inv.items[j];
                if li.product_id < 1 || li.product_id > np as u64 {
                    return false;
                }
                if sale && line_problem(&li).is_some() {
                    return false;
                }
                j = j + 1;
            }
            let mut k: usize = 0;
            while k < i
                invariant
                    ni == self.spec_invoices().len(),
                    k <= i < ni,
                    forall|a: int| 0 <= a < k ==> (#[trigger] self.spec_invoices()[a]).invoice_number@
                        != self.spec_invoices()[i as int].invoice_number@,
                decreases i - k,
            {
                if self.invoices[k].invoice_number == self.invoices[i].invoice_number {
                    return false;
                }
                k = k + 1;
            }
            i = i + 1;
        }
        true
    }
}

fn copy_setting_rows(v: &Vec<Setting>) -> (r: Vec<Setting>)
    ensures
        r@ == v@,
{
    let mut r: Vec<Setting> = Vec::new();
    let mut i: usize = 0;
    while i < v.len()
        invariant
            i <= v@.len(),
            r@ == v@.take(i as int),
        decreases v@.len() - i,
    {
        r.push(Setting { key: v[i].key.clone(), value: v[i].value.clone() });
        assert(r@ =~= v@.take(i + 1));
        i = i + 1;
    }
    assert(v@.take(v@.len() as int) =~= v@);
    r
}

fn copy_account_rows(v: &Vec<Account>) -> (r: Vec<Account>)
    ensures
        r@ == v@,
{
    let mut r: Vec<Account> = Vec::new();
    let mut i: usize = 0;
    while i < v.len()
        invariant
            i <= v@.len(),
            r@ == v@.take(i as int),
        decreases v@.len() - i,
    {
        let a = &v[i];
        r.push(
            Account {
                username: a.username.clone(),
                password_hash: a.password_hash.clone(),
                role: a.role,
                last_login: a.last_login,
            },
        );
        assert(r@ =~= v@.take(i + 1));
        i = i + 1;
    }
    assert(v@.take(v@.len() as int) =~= v@);
    r
}

fn copy_dataset(d: &Dataset) -> (r: Dataset)
    ensures
        same_dataset(&r, d),
{
    Dataset {
        store: copy_store(&d.store),
        settings: Settings { entries: copy_setting_rows(&d.settings.entries) },
        accounts: Accounts { accounts: copy_account_rows(&d.accounts.accounts) },
    }
}

impl Dataset {
    /// Checks every invariant of every table, row by row.
    pub fn is_consistent(&self) -> (r: bool)
        ensures
            r == self.wf(),
    {
        self.store.is_consistent() && self.settings.is_consistent() && self.accounts.is_consistent()
    }

    /// Takes a copy of every table.
    pub fn create_snapshot(&self, kind: SnapshotKind, timestamp: u64) -> (r: Snapshot)
        ensures
            r.captures(self),
            r.kind == kind,
            r.timestamp == timestamp,
    {
        let s = &self.store;
        let size = s.catalog.products.len() as u128 + s.catalog.customers.len() as u128
            + s.catalog.sales_persons.len() as u128 + s.ledger.entries.len() as u128
            + s.invoices.len() as u128 + self.settings.entries.len() as u128
            + self.accounts.accounts.len() as u128;
        Snapshot { timestamp, kind, schema_version: SCHEMA_VERSION, size, data: copy_dataset(self) }
    }

    /// Replaces every table with the snapshot's, for an administrator, and
    /// only when the snapshot is of this schema and consistent.
    pub fn restore(&mut self, snap: &Snapshot, session: &Session) -> (r: Result<(), SnapshotError>)
        requires
            old(self).wf(),
        ensures
            final(self).wf(),
            !allowed(session.spec_role(), Operation::RestoreSnapshot) ==> r == Err::<(), SnapshotError>(
                SnapshotError::Unauthorized(Operation::RestoreSnapshot),
            ),
            allowed(session.spec_role(), Operation::RestoreSnapshot) && (snap.schema_version != SCHEMA_VERSION
                || !snap.data.wf()) ==> r == Err::<(), SnapshotError>(SnapshotError::CorruptSnapshot),
            r is Err ==> *final(self) == *old(self),
            allowed(session.spec_role(), Operation::RestoreSnapshot) && snap.schema_version == SCHEMA_VERSION
                && snap.data.wf() ==> r is Ok && same_dataset(final(self), &snap.data),
    {
        if !authorize(session.role(), Operation::RestoreSnapshot) {
            return Err(SnapshotError::Unauthorized(Operation::RestoreSnapshot));
        }
        if snap.schema_version != SCHEMA_VERSION || !snap.data.is_consistent() {
            return Err(SnapshotError::CorruptSnapshot);
        }
        let fresh = copy_dataset(&snap.data);
        proof {
            lemma_same_store_wf(&fresh.store, &snap.data.store);
        }
        *self = fresh;
        Ok(())
    }
}

/// Restoring a snapshot gives back the dataset it was taken of: a snapshot
/// of a consistent dataset passes the checks of `restore`, and what
/// `restore` installs from it holds the original rows in every table.
pub proof fn law_snapshot_round_trip(d: &Dataset, snap: &Snapshot, restored: &Dataset)
    requires
        d.wf(),
        snap.captures(d),
        same_dataset(restored, &snap.data),
    ensures
        snap.schema_version == SCHEMA_VERSION,
        snap.data.wf(),
        same_dataset(restored, d),
{
    lemma_same_store_wf(&snap.data.store, &d.store);
    assert forall|i: int| 0 <= i < restored.store.spec_invoices().len() implies same_invoice(
        #[trigger] restored.store.spec_invoices()[i],
        d.store.spec_invoices()[i],
    ) by {
        assert(same_invoice(restored.store.spec_invoices()[i], snap.data.store.spec_invoices()[i]));
        assert(same_invoice(snap.data.store.spec_invoices()[i], d.store.spec_invoices()[i]));
    }
}

/// A stored snapshot and its id.
pub struct BackupRecord {
    pub id: u64,
    pub snapshot: Snapshot,
}

/// Stored snapshots, oldest first, with ids that only grow.
pub struct Backups {
    pub records: Vec<BackupRecord>,
    pub next_id: u64,
}

impl Backups {
    pub open spec fn wf(&self) -> bool {
        &&& forall|i: int, j: int|
            0 <= i < j < self.records@.len() ==> (#[trigger] self.records@[i]).id < (#[trigger] self.records@[j]).id
        &&& forall|i: int| 0 <= i < self.records@.len() ==> (#[trigger] self.records@[i]).id < self.next_id
        &&& self.next_id >= 1
    }

    pub fn new() -> (r: Backups)
        ensures
            r.wf(),
            r.records@.len() == 0,
            r.next_id == 1,
    {
        Backups { records: Vec::new(), next_id: 1 }
    }

    /// Stores a snapshot under the next id and returns that id, or `None`
    /// when no id is left.
    pub fn record(&mut self, snapshot: Snapshot) -> (r: Option<u64>)
        requires
            old(self).wf(),
        ensures
            final(self).wf(),
            old(self).next_id < u64::MAX ==> r == Some(old(self).next_id) && final(self).next_id == old(
                self,
            ).next_id + 1 && final(self).records@ == old(self).records@.push(
                BackupRecord { id: old(self).next_id, snapshot },
            ),
            old(self).next_id == u64::MAX ==> r is None && final(self).records@ == old(self).records@
                && final(self).next_id == old(self).next_id,
    {
        if self.next_id == u64::MAX {
            return None;
        }
        let id = self.next_id;
        self.records.push(BackupRecord { id, snapshot });
        self.next_id = id + 1;
        Some(id)
    }

    /// The snapshot stored under `id`, if it is still kept.
    pub fn get(&self, id: u64) -> (r: Option<&Snapshot>)
        requires
            self.wf(),
        ensures
            r is None <==> forall|i: int| 0 <= i < self.records@.len() ==> (#[trigger] self.records@[i]).id != id,
            r is Some ==> exists|i: int|
                0 <= i < self.records@.len() && (#[trigger] self.records@[i]).id == id && r.unwrap()
                    == &self.records@[i].snapshot,
    {
        let mut i: usize = 0;
        while i < self.records.len()
            invariant
                i <= self.records@.len(),
                forall|j: int| 0 <= j < i ==> (#[trigger] self.records@[j]).id != id,
            decreases self.records@.len() - i,
        {
            if self.records[i].id == id {
                return Some(&self.records[i].snapshot);
            }
            i = i + 1;
        }
        None
    }

    /// Retention: keeps the `keep` newest snapshots and drops the older ones.
    pub fn prune(&mut self, keep: usize)
        requires
            old(self).wf(),
        ensures
            final(self).wf(),
            final(self).next_id == old(self).next_id,
            old(self).records@.len() <= keep ==> final(self).records@ == old(self).records@,
            old(self).records@.len() > keep ==> final(self).records@ == old(self).records@.skip(
                old(self).records@.len() - keep,
            ),
    {
        let ghost before = self.records@;
        let n = self.records.len();
        let mut dropped: usize = 0;
        while self.records.len() > keep
            invariant
                n == before.len(),
                dropped <= before.len(),
                self.records@ == before.skip(dropped as int),
                self.next_id == old(self).next_id,
                old(self).wf(),
                before == old(self).records@,
                before.len() > keep ==> dropped <= before.len() - keep,
                before.len() <= keep ==> dropped == 0,
            decreases self.records@.len(),
        {
            self.records.remove(0);
            assert(before.skip(dropped as int).remove(0) =~= before.skip(dropped + 1));
            dropped = dropped + 1;
        }
        assert(before.skip(0) =~= before);
        proof {
            assert forall|i: int, j: int|
                0 <= i < j < self.records@.len() implies (#[trigger] self.records@[i]).id < (
                #[trigger] self.records@[j]).id by {
                assert(self.records@[i] == before[i + dropped]);
                assert(self.records@[j] == before[j + dropped]);
            }
            assert forall|i: int| 0 <= i < self.records@.len() implies (#[trigger] self.records@[i]).id
                < self.next_id by {
                assert(self.records@[i] == before[i + dropped]);
            }
        }
    }
}

} // verus!
