//! The token alphabet of the markup compiler.
//!
//! The compiler reads and writes *flat* token streams: identifiers,
//! literals, punctuation characters, and explicit open/close delimiter
//! tokens.  Every token carries a `span`, an opaque number a caller can
//! map back to a source location when reporting a diagnostic; tokens the
//! code generator invents carry the reserved span `0`.
//!
//! Internally the parser first matches delimiters and works on grouped
//! [`Tree`] tokens, in which a balanced `( .. )`, `[ .. ]` or `{ .. }`
//! run has become one node.

use vstd::prelude::*;

verus! {

/// A delimiter kind: parentheses `()`, brackets `[]` or braces `{}`.
#[derive(Clone, Copy, PartialEq, Eq, Structural, Debug)]
pub enum Delim {
    Paren,
    Bracket,
    Brace,
}

/// What one flat token is, without its span.
#[derive(Debug, PartialEq, Eq)]
pub enum TokKind {
    /// An identifier, e.g. a widget name or an attribute key.
    Ident(String),
    /// A literal, carried as its source text, e.g. `20` or `"Welcome"`.
    Lit(String),
    /// A single punctuation character, e.g. `,`, `:`, `!` or `.`.
    Punct(char),
    /// An opening delimiter.
    Open(Delim),
    /// A closing delimiter.
    Close(Delim),
}

/// One flat token: its kind and the span it came from.
#[derive(Debug, PartialEq, Eq)]
pub struct Tok {
    pub span: usize,
    pub kind: TokKind,
}

/// The mathematical value of a [`TokKind`]: text becomes `Seq<char>`.
pub enum TokKindV {
    Ident(Seq<char>),
    Lit(Seq<char>),
    Punct(char),
    Open(Delim),
    Close(Delim),
}

/// The mathematical value of a [`Tok`].
pub struct TokV {
    pub span: nat,
    pub kind: TokKindV,
}

impl View for TokKind {
    type V = TokKindV;

    open spec fn view(&self) -> TokKindV {
        match self {
            TokKind::Ident(s) => TokKindV::Ident(s@),
            TokKind::Lit(s) => TokKindV::Lit(s@),
            TokKind::Punct(c) => TokKindV::Punct(*c),
            TokKind::Open(d) => TokKindV::Open(*d),
            TokKind::Close(d) => TokKindV::Close(*d),
        }
    }
}

impl View for Tok {
    type V = TokV;

    open spec fn view(&self) -> TokV {
        TokV { span: self.span as nat, kind: self.kind@ }
    }
}

/// A grouped token: either a single non-delimiter token, or one
/// balanced delimiter pair with the grouped tokens it encloses.
#[derive(Debug, PartialEq, Eq)]
pub enum Tree {
    Leaf(Tok),
    Group { delim: Delim, open_span: usize, close_span: usize, inner: Vec<Tree> },
}

/// The mathematical value of a [`Tree`].
pub enum TreeV {
    Leaf(TokV),
    Group { delim: Delim, open_span: nat, close_span: nat, inner: Seq<TreeV> },
}

/// The mathematical value of one grouped token.
pub open spec fn tree_view(t: Tree) -> TreeV
    decreases t,
{
    match t {
        Tree::Leaf(tok) => TreeV::Leaf(tok@),
        Tree::Group { delim, open_span, close_span, inner } => TreeV::Group {
            delim,
            open_span: open_span as nat,
            close_span: close_span as nat,
            inner: trees_view(inner@),
        },
    }
}

/// The mathematical value of a sequence of grouped tokens, in order.
pub open spec fn trees_view(s: Seq<Tree>) -> Seq<TreeV>
    decreases s,
{
    if s.len() == 0 {
        Seq::empty()
    } else {
        seq![tree_view(s[0])] + trees_view(s.subrange(1, s.len() as int))
    }
}

impl View for Tree {
    type V = TreeV;

    open spec fn view(&self) -> TreeV {
        tree_view(*self)
    }
}

/// `trees_view` is the element-wise view.
pub broadcast proof fn lemma_trees_view(s: Seq<Tree>)
    ensures
        #[trigger] trees_view(s).len() == s.len(),
        forall|i: int| 0 <= i < s.len() ==> trees_view(s)[i] == s[i]@,
    decreases s,
{
    if s.len() > 0 {
        lemma_trees_view(s.subrange(1, s.len() as int));
    }
}

/// The sequence of token values of a flat token vector.
pub open spec fn toks_view(toks: Seq<Tok>) -> Seq<TokV> {
    toks.map_values(|t: Tok| t@)
}

/// The span a diagnostic about this grouped token should point at:
/// a leaf's own span, or the opening delimiter of a group.
pub open spec fn tree_span(t: TreeV) -> nat {
    match t {
        TreeV::Leaf(tok) => tok.span,
        TreeV::Group { open_span, .. } => open_span,
    }
}

/// Whether a grouped token is the punctuation character `c`.
pub open spec fn is_punct(t: TreeV, c: char) -> bool {
    t matches TreeV::Leaf(tok) && tok.kind matches TokKindV::Punct(p) && p == c
}

/// Flattening one grouped token back into flat tokens: a group becomes
/// its opening delimiter, its flattened contents, and its closing
/// delimiter, with the spans the delimiters were read with.
pub open spec fn flatten_tree(t: TreeV) -> Seq<TokV>
    decreases t,
{
    match t {
        TreeV::Leaf(tok) => seq![tok],
        TreeV::Group { delim, open_span, close_span, inner } => seq![
            TokV { span: open_span, kind: TokKindV::Open(delim) },
        ] + flatten_trees(inner) + seq![TokV { span: close_span, kind: TokKindV::Close(delim) }],
    }
}

/// Flattening a sequence of grouped tokens, in order.
pub open spec fn flatten_trees(ts: Seq<TreeV>) -> Seq<TokV>
    decreases ts,
{
    if ts.len() == 0 {
        Seq::empty()
    } else {
        flatten_tree(ts[0]) + flatten_trees(ts.subrange(1, ts.len() as int))
    }
}

impl Tok {
    /// An equal copy of this token.
    pub fn dup(&self) -> (r: Tok)
        ensures
            r == *self,
    {
        Tok {
            span: self.span,
            kind: match &self.kind {
                TokKind::Ident(s) => TokKind::Ident(s.clone()),
                TokKind::Lit(s) => TokKind::Lit(s.clone()),
                TokKind::Punct(c) => TokKind::Punct(*c),
                TokKind::Open(d) => TokKind::Open(*d),
                TokKind::Close(d) => TokKind::Close(*d),
            },
        }
    }
}

} // verus!
