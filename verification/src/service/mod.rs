//! What a caller gets back: failures and encoded results.

pub mod error;
pub mod result_json;
