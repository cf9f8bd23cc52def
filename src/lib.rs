//! Human-readable time periods and ISO 8601 instants: grammars, canonical forms and ordering.
use vstd::prelude::*;

pub mod canonical;
pub mod error;
pub mod iso8601;
pub mod period;
pub mod text;
pub mod timeout;

pub use error::HolochainError;
pub use iso8601::{test_iso_8601, Iso8601};
pub use period::Period;
pub use timeout::Timeout;

verus! {

} // verus!
