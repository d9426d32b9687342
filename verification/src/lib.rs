//! A compile-time markup compiler for a fluent-builder GUI toolkit.
//!
//! The crate turns a declarative, JSX-like description of a widget tree
//! into the equivalent nested builder-call expression, as plain tokens:
//!
//! * [`token`] — the flat token alphabet the compiler reads and writes;
//! * [`ast`] — the typed tree the parser produces: widget and component
//!   calls with positional arguments, attributes and children, and bare
//!   expressions used directly as children;
//! * [`parser`] — groups the flat tokens by delimiter and parses them
//!   into one [`ast::Markup`], or reports a span-tagged syntax error;
//! * [`codegen`] — lowers the tree back into one builder expression,
//!   children in constructor position, attribute setters chained after
//!   construction in declared order.

use vstd::prelude::*;

pub mod ast;
pub mod codegen;
pub mod laws;
pub mod parser;
pub mod token;

use crate::codegen::{emit_markup, lower_node};
use crate::parser::{parse_markup, sp_markup, ErrV, PError};
use crate::token::{toks_view, Tok, TokV};

verus! {

/// The whole pipeline as one specification: parse the flat tokens,
/// then lower the tree; a syntax error passes through unchanged.
pub open spec fn sp_compile(s: Seq<TokV>) -> Result<Seq<TokV>, ErrV> {
    match sp_markup(s) {
        Ok(n) => Ok(lower_node(n)),
        Err(e) => Err(e),
    }
}

/// Compile one markup block to one builder expression: exactly the
/// tokens the specification pipeline gives, or exactly its error —
/// so success and failure are decided by the grammar alone, and no
/// tokens are produced on failure.
pub fn compile(toks: &Vec<Tok>) -> (r: Result<Vec<Tok>, PError>)
    ensures
        match r {
            Ok(out) => sp_compile(toks_view(toks@)) == Ok::<Seq<TokV>, ErrV>(toks_view(out@)),
            Err(e) => sp_compile(toks_view(toks@)) == Err::<Seq<TokV>, ErrV>(e@),
        },
{
    match parse_markup(toks) {
        Ok(m) => Ok(emit_markup(&m)),
        Err(e) => Err(e),
    }
}

} // verus!
