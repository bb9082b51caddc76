//! Keeps a declared inventory of DNS records in step with a provider's live
//! records: layered configuration, the inventory store and the reconciliation
//! engine that classifies each inventory entry.
use vstd::prelude::*;

pub mod commands;
pub mod config;
pub mod inventory;
pub mod reconcile;
pub mod yaml;

verus! {

} // verus!
