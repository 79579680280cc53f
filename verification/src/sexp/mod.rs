//! S-expressions: their values, lexer, parser and printer.

pub mod lexer;
pub mod parser;
pub mod printer;
pub mod roundtrip;
pub mod types;

pub use lexer::{Lexer, Token, TokenType};
pub use parser::Parser;
pub use printer::{print_sexp, Printer};
pub use types::{Keyword, List, Nil, Number, SExp, SExpV, StringLit, Symbol};
