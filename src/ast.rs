//! Shape of the syntax tree that the parser is to build.

use crate::span::{Ident, Span};
use vstd::prelude::*;

verus! {

/// A top-level declaration.
pub struct Item<K = ItemKind> {
    ident: Ident,
    kind: K,
    span: Span,
}

/// Kinds of top-level declaration.
pub enum ItemKind {
    Fn(Box<Fn>),
}

/// A function; without a body it is a declaration only.
pub struct Fn {
    pub body: Option<Box<Stmt>>,
}

/// A statement.
pub struct Stmt {
    kind: StmtKind,
    span: Span,
}

/// Kinds of statement.
#[derive(Clone, Debug)]
pub enum StmtKind {
    Expr(Box<Expr>),
}

/// An expression.
#[derive(Clone, Debug)]
pub struct Expr {
    kind: ExprKind,
    span: Span,
}

/// Kinds of expression; a return without a value is a bare `return;`.
#[derive(Clone, Debug)]
pub enum ExprKind {
    Return(Option<Box<u32>>),
}

} // verus!
