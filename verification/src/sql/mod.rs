//! SQL statements lowered to programs over relations.

pub mod aggregates;
pub mod aggregation;
pub mod assembly;
pub mod catalog;
pub mod context;
pub mod datatypes;
pub mod definitions;
pub mod effects;
pub mod env;
pub mod forms;
pub mod inserts;
pub mod lir;
pub mod literals;
pub mod lowering;
pub mod meaning;
pub mod mutations;
pub mod operators;
pub mod queries;
pub mod scopes;
pub mod selects;
pub mod shapes;
pub mod showing;
pub mod statements;
pub mod syntax;
pub mod translation;
pub mod tree;
pub mod types;

pub use statements::{compile, compile_sql, prepare, Compiled, Prepared};
pub use syntax::parse;
pub use types::{CommandKind, Error, Parameter, ResultColumn};
