//! Game parameters.
pub mod keys;
pub mod types;
