//! Master records: products, customers and sales staff.

use vstd::prelude::*;
use crate::tax::FULL_RATE;

verus! {

/// Descriptive fields of a product that no rule reads.
pub struct ProductDetails {
    pub category: String,
    pub hsn_code: String,
    /// The unit of sale, such as "Nos".
    pub unit: String,
    pub package_size: Option<String>,
    pub batch_number: Option<String>,
    pub expiry_date: Option<String>,
}

/// Contact fields of a customer beyond name and phone.
pub struct CustomerDetails {
    pub email: Option<String>,
    pub address: Option<String>,
    pub gstin: Option<String>,
}

pub fn copy_text(o: &Option<String>) -> (r: Option<String>)
    ensures
        r == *o,
{
    match o {
        Some(t) => Some(t.clone()),
        None => None,
    }
}

impl ProductDetails {
    pub fn copy(&self) -> (r: ProductDetails)
        ensures
            r == *self,
    {
        ProductDetails {
            category: self.category.clone(),
            hsn_code: self.hsn_code.clone(),
            unit: self.unit.clone(),
            package_size: copy_text(&self.package_size),
            batch_number: copy_text(&self.batch_number),
            expiry_date: copy_text(&self.expiry_date),
        }
    }
}

impl CustomerDetails {
    pub fn copy(&self) -> (r: CustomerDetails)
        ensures
            r == *self,
    {
        CustomerDetails {
            email: copy_text(&self.email),
            address: copy_text(&self.address),
            gstin: copy_text(&self.gstin),
        }
    }
}

pub struct Product {
    pub id: u64,
    pub name: String,
    pub details: ProductDetails,
    /// Maximum retail price, in paise.
    pub mrp: i64,
    pub discount_bp: u64,
    /// Price of one unit at sale, in paise.
    pub selling_price: i64,
    pub purchase_price: i64,
    pub gst_rate_bp: u64,
    /// The running sum of the product's stock movements.
    pub current_stock: i64,
    pub min_stock_level: i64,
}

pub struct Customer {
    pub id: u64,
    pub name: String,
    pub phone: String,
    pub details: CustomerDetails,
}

pub struct SalesPerson {
    pub id: u64,
    pub name: String,
    pub is_active: bool,
}

/// The terms on which a product is sold, checked when it is registered.
#[derive(Clone, Copy, Debug, PartialEq, Eq, Structural)]
pub struct Pricing {
    pub mrp: i64,
    pub discount_bp: u64,
    pub selling_price: i64,
    pub purchase_price: i64,
    pub gst_rate_bp: u64,
    pub min_stock_level: i64,
}

#[derive(Clone, Copy, Debug, PartialEq, Eq, Structural)]
pub enum CatalogError {
    NegativePrice,
    DiscountOutOfRange,
    RateOutOfRange,
    /// No more ids can be handed out.
    Full,
    UnknownSalesPerson(u64),
    UnknownProduct(u64),
}

pub open spec fn pricing_ok(p: Pricing) -> bool {
    &&& p.mrp >= 0
    &&& p.selling_price >= 0
    &&& p.purchase_price >= 0
    &&& p.discount_bp <= FULL_RATE
    &&& p.gst_rate_bp <= FULL_RATE
}

pub open spec fn pricing_error(p: Pricing) -> Option<CatalogError> {
    if p.mrp < 0 || p.selling_price < 0 || p.purchase_price < 0 {
        Some(CatalogError::NegativePrice)
    } else if p.discount_bp > FULL_RATE {
        Some(CatalogError::DiscountOutOfRange)
    } else if p.gst_rate_bp > FULL_RATE {
        Some(CatalogError::RateOutOfRange)
    } else {
        None
    }
}

/// Records of each kind are numbered from one in the order they were added.
pub struct Catalog {
    pub products: Vec<Product>,
    pub customers: Vec<Customer>,
    pub sales_persons: Vec<SalesPerson>,
}

impl Catalog {
    pub open spec fn wf(&self) -> bool {
        &&& forall|i: int| 0 <= i < self.products@.len() ==> (#[trigger] self.products@[i]).id == i + 1
        &&& forall|i: int|
            0 <= i < self.products@.len() ==> (#[trigger] self.products@[i]).discount_bp <= FULL_RATE
                && self.products@[i].gst_rate_bp <= FULL_RATE && self.products@[i].selling_price >= 0
        &&& forall|i: int| 0 <= i < self.customers@.len() ==> (#[trigger] self.customers@[i]).id == i + 1
        &&& forall|i: int|
            0 <= i < self.sales_persons@.len() ==> (#[trigger] self.sales_persons@[i]).id == i + 1
    }

    pub open spec fn has_product(&self, id: u64) -> bool {
        1 <= id <= self.products@.len()
    }

    pub open spec fn product(&self, id: u64) -> Product {
        self.products@[id - 1]
    }

    pub open spec fn has_customer(&self, id: u64) -> bool {
        1 <= id <= self.customers@.len()
    }

    pub open spec fn has_sales_person(&self, id: u64) -> bool {
        1 <= id <= self.sales_persons@.len()
    }

    pub fn new() -> (r: Catalog)
        ensures
            r.wf(),
            r.products@.len() == 0,
            r.customers@.len() == 0,
            r.sales_persons@.len() == 0,
    {
        Catalog { products: Vec::new(), customers: Vec::new(), sales_persons: Vec::new() }
    }

    pub fn product_exists(&self, id: u64) -> (r: bool)
        ensures
            r == self.has_product(id),
    {
        1 <= id && id <= self.products.len() as u64
    }

    /// Where the product with this id stands, if it exists.
    pub fn product_index(&self, id: u64) -> (r: Option<usize>)
        ensures
            r is Some <==> self.has_product(id),
            r is Some ==> r.unwrap() == id - 1,
    {
        let n = self.products.len();
        if 1 <= id && id <= n as u64 {
            Some((id - 1) as usize)
        } else {
            None
        }
    }

    pub fn customer_exists(&self, id: u64) -> (r: bool)
        ensures
            r == self.has_customer(id),
    {
        1 <= id && id <= self.customers.len() as u64
    }

    /// Whether the sales person exists, and if so whether they are active.
    pub fn sales_person_active(&self, id: u64) -> (r: Option<bool>)
        ensures
            r == (if self.has_sales_person(id) {
                Some(self.sales_persons@[id - 1].is_active)
            } else {
                None
            }),
    {
        let n = self.sales_persons.len();
        if 1 <= id && id <= n as u64 {
            Some(self.sales_persons[(id - 1) as usize].is_active)
        } else {
            None
        }
    }

    /// Registers a customer and returns the new id.
    pub fn add_customer(&mut self, name: String, phone: String, details: CustomerDetails) -> (r: Result<
        u64,
        CatalogError,
    >)
        requires
            old(self).wf(),
        ensures
            final(self).wf(),
            final(self).products@ == old(self).products@,
            final(self).sales_persons@ == old(self).sales_persons@,
            old(self).customers@.len() < u64::MAX ==> r == Ok::<u64, CatalogError>(
                (old(self).customers@.len() + 1) as u64,
            ) && final(self).customers@ == old(self).customers@.push(
                Customer { id: (old(self).customers@.len() + 1) as u64, name, phone, details },
            ),
            old(self).customers@.len() >= u64::MAX ==> r == Err::<u64, CatalogError>(CatalogError::Full)
                && final(self).customers@ == old(self).customers@,
    {
        if self.customers.len() as u64 >= u64::MAX {
            return Err(CatalogError::Full);
        }
        let id = self.customers.len() as u64 + 1;
        self.customers.push(Customer { id, name, phone, details });
        Ok(id)
    }

    /// Registers an active sales person and returns the new id.
    pub fn add_sales_person(&mut self, name: String) -> (r: Result<u64, CatalogError>)
        requires
            old(self).wf(),
        ensures
            final(self).wf(),
            final(self).products@ == old(self).products@,
            final(self).customers@ == old(self).customers@,
            old(self).sales_persons@.len() < u64::MAX ==> r == Ok::<u64, CatalogError>(
                (old(self).sales_persons@.len() + 1) as u64,
            ) && final(self).sales_persons@ == old(self).sales_persons@.push(
                SalesPerson { id: (old(self).sales_persons@.len() + 1) as u64, name, is_active: true },
            ),
            old(self).sales_persons@.len() >= u64::MAX ==> r == Err::<u64, CatalogError>(
                CatalogError::Full,
            ) && final(self).sales_persons@ == old(self).sales_persons@,
    {
        if self.sales_persons.len() as u64 >= u64::MAX {
            return Err(CatalogError::Full);
        }
        let id = self.sales_persons.len() as u64 + 1;
        self.sales_persons.push(SalesPerson { id, name, is_active: true });
        Ok(id)
    }

    /// Marks a sales person inactive; the record itself stays.
    pub fn deactivate_sales_person(&mut self, id: u64) -> (r: Result<(), CatalogError>)
        requires
            old(self).wf(),
        ensures
            final(self).wf(),
            final(self).products@ == old(self).products@,
            final(self).customers@ == old(self).customers@,
            final(self).sales_persons@.len() == old(self).sales_persons@.len(),
            old(self).has_sales_person(id) ==> r is Ok
                && !final(self).sales_persons@[id - 1].is_active
                && final(self).sales_persons@[id - 1].name == old(self).sales_persons@[id - 1].name
                && final(self).sales_persons@[id - 1].id == id,
            forall|i: int|
                0 <= i < old(self).sales_persons@.len() && i != id - 1
                    ==> #[trigger] final(self).sales_persons@[i] == old(self).sales_persons@[i],
            !old(self).has_sales_person(id) ==> r == Err::<(), CatalogError>(
                CatalogError::UnknownSalesPerson(id),
            ) && final(self).sales_persons@ == old(self).sales_persons@,
    {
        let n = self.sales_persons.len();
        if id < 1 || id > n as u64 {
            return Err(CatalogError::UnknownSalesPerson(id));
        }
        self.sales_persons[(id - 1) as usize].is_active = false;
        Ok(())
    }
}

pub fn check_pricing(p: &Pricing) -> (r: Option<CatalogError>)
    ensures
        r == pricing_error(*p),
        r is None <==> pricing_ok(*p),
{
    if p.mrp < 0 || p.selling_price < 0 || p.purchase_price < 0 {
        Some(CatalogError::NegativePrice)
    } else if p.discount_bp > FULL_RATE {
        Some(CatalogError::DiscountOutOfRange)
    } else if p.gst_rate_bp > FULL_RATE {
        Some(CatalogError::RateOutOfRange)
    } else {
        None
    }
}

} // verus!
