//! Weather-checker core: persisted location list and unit preference,
//! provider query construction, and classification of provider responses.

use vstd::prelude::*;

pub mod classify;
pub mod codec;
pub mod config;
mod json;
pub mod location;
pub mod numbers;
pub mod query;
pub mod registry;
pub mod report;
mod text;

pub use config::Config;
pub use location::Location;

verus! {

} // verus!
