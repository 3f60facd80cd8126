//! The provider contract and the drivers behind it.
pub mod contract;
pub mod mistral;
pub mod think_filter;
pub mod think_laws;
pub mod types;
