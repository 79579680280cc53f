//! Building the AST from its S-expression form.

pub mod ast_builder;
mod expr;
pub mod helpers;
mod item;
pub mod spec;

pub use ast_builder::AstBuilder;
pub use helpers::{
    expect_keyword, expect_list, expect_number, expect_string, expect_symbol, is_nil,
    parse_kwargs, KwArgs,
};
