//! Front end of a compiler for a reduced subset of C: a byte cursor, a
//! tokenizer, source spans, a string interner and the shape of the syntax tree.

pub mod ast;
pub mod cursor;
pub mod lexer;
pub mod span;
pub mod symbol;
