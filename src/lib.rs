//! Invoice and stock consistency core of a retail point-of-sale system.
//!
//! Amounts are integers in paise (hundredths of a currency unit); discount and
//! tax rates are integers in basis points (hundredths of a percent).

pub mod tax;
pub mod ledger;
pub mod catalog;
pub mod store;
pub mod access;
pub mod settings;
pub mod snapshot;
pub mod laws;
