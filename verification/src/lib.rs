//! Oxur: S-expression representation of the Rust AST, and the design document
//! tooling that goes with it.

pub mod text;
pub mod textops;
pub mod pattern;
pub mod paths;
pub mod error;
pub mod sexp;
pub mod ast;
pub mod builder;
pub mod design;
pub mod testing;
pub mod table;

pub use error::{LexError, ParseError, Position};
