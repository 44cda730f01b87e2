//! Rad: a relational database over object storage.

pub mod scheduler;
pub mod service;
pub mod sql;
pub mod telemetry;
pub mod text;
