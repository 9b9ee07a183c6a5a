//! A parser for a small language of Turing-machine definitions: machines,
//! transition tables, and rules with tape operations.
//!
//! `grammar` states, as spec functions, what each production yields at each
//! offset of a text; `parse` is proved to return exactly what `grammar::parses`
//! states of its argument. `laws` holds properties of the grammar proved for
//! every text.
pub mod ast;
pub mod chars;
pub mod grammar;
pub mod laws;
mod parser;

pub use parser::parse;
