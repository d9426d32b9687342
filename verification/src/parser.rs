//! The parser: from a flat token stream to one [`Markup`] tree.
//!
//! Parsing has two passes.  The first pass matches delimiters, turning
//! the flat stream into grouped [`Tree`] tokens and rejecting unclosed,
//! mismatched or stray delimiters.  The second pass reads the grammar
//!
//! ```text
//! Markup := Node
//! Node   := Call | Expr
//! Call   := Path Args? Attrs? Block?        (at least one section)
//! Path   := Ident ('::' Ident)*
//! Args   := '(' (Expr (',' Expr)*)? ')'
//! Attrs  := '!' '[' (Ident ':' Expr (',' Ident ':' Expr)* ','?)? ']'
//! Block  := '{' (Node (',' Node)* ','?)? '}'
//! ```
//!
//! A leading path with none of the three sections, or any other run of
//! tokens, is a bare expression child and is kept verbatim.  An
//! expression is any nonempty balanced token run up to the next `,` of
//! the surrounding list.  Attribute lists and children blocks accept a
//! trailing `,`; argument lists do not.  Since `!` followed by a
//! bracket group always reads as an attribute section, a macro
//! invocation such as `vec![..]` can only be a bare expression child
//! when wrapped in parentheses.
//!
//! Every failure is reported once, with the span of the offending
//! token; a group-wide complaint points at the group's opening
//! delimiter.  The functions `sp_markup` and `sp_compile` are the
//! specification the executable parser is proved against.

use vstd::prelude::*;

use crate::ast::{Attr, AttrV, Call, CallV, Markup, Node, NodeV};
use crate::ast::{args_view, attrs_view, lemma_nodes_view, nodes_view, path_view};
use crate::token::{flatten_tree, flatten_trees, is_punct, lemma_trees_view, toks_view, tree_span,
    tree_view, trees_view, Delim, Tok, TokKind, TokKindV, TokV, Tree, TreeV};

verus! {

/// Why parsing failed.
#[derive(Clone, Copy, Debug, PartialEq, Eq, Structural)]
pub enum ErrKind {
    /// The markup block held no tokens at all.
    EmptyMarkup,
    /// An opening delimiter was never closed.
    UnclosedDelim,
    /// A closing delimiter of a different kind than the open one.
    MismatchedClose,
    /// A closing delimiter with nothing open.
    StrayClose,
    /// A child slot held no tokens.
    ExpectedNode,
    /// An attribute slot did not start with a key identifier.
    ExpectedAttr,
    /// An attribute key was not followed by `:`.
    ExpectedColon,
    /// An expression slot held no tokens.
    ExpectedExpr,
    /// A token where none may stand: after a call's last section, or a
    /// `,` at the top level of the block.
    UnexpectedToken,
}

/// A syntax error: its kind and the span of the offending token.
#[derive(Clone, Copy, Debug, PartialEq, Eq, Structural)]
pub struct PError {
    pub kind: ErrKind,
    pub span: usize,
}

/// The mathematical value of a [`PError`].
pub struct ErrV {
    pub kind: ErrKind,
    pub span: nat,
}

impl View for PError {
    type V = ErrV;

    open spec fn view(&self) -> ErrV {
        ErrV { kind: self.kind, span: self.span as nat }
    }
}

// ---------------------------------------------------------------------
// Pass one: delimiter matching.
// ---------------------------------------------------------------------

/// One open delimiter the grouping pass has not yet closed: its kind,
/// the span of its opening token, and the grouped tokens of the
/// enclosing level collected so far.
pub struct FrameV {
    pub delim: Delim,
    pub open_span: nat,
    pub outer: Seq<TreeV>,
}

/// The delimiter-matching pass, one token at a time.  `stack` holds the
/// open delimiters, innermost last; `cur` holds the grouped tokens of
/// the innermost level collected so far.
pub open spec fn sp_group(s: Seq<TokV>, stack: Seq<FrameV>, cur: Seq<TreeV>) -> Result<
    Seq<TreeV>,
    ErrV,
>
    decreases s,
{
    if s.len() == 0 {
        if stack.len() == 0 {
            Ok(cur)
        } else {
            Err(ErrV { kind: ErrKind::UnclosedDelim, span: stack.last().open_span })
        }
    } else {
        let rest = s.subrange(1, s.len() as int);
        match s[0].kind {
            TokKindV::Open(d) => sp_group(
                rest,
                stack.push(FrameV { delim: d, open_span: s[0].span, outer: cur }),
                Seq::empty(),
            ),
            TokKindV::Close(d) => {
                if stack.len() == 0 {
                    Err(ErrV { kind: ErrKind::StrayClose, span: s[0].span })
                } else if stack.last().delim != d {
                    Err(ErrV { kind: ErrKind::MismatchedClose, span: s[0].span })
                } else {
                    sp_group(
                        rest,
                        stack.drop_last(),
                        stack.last().outer.push(
                            TreeV::Group {
                                delim: d,
                                open_span: stack.last().open_span,
                                close_span: s[0].span,
                                inner: cur,
                            },
                        ),
                    )
                }
            },
            _ => sp_group(rest, stack, cur.push(TreeV::Leaf(s[0]))),
        }
    }
}

/// Grouping a whole stream, starting with nothing open.
pub open spec fn sp_group_all(s: Seq<TokV>) -> Result<Seq<TreeV>, ErrV> {
    sp_group(s, Seq::empty(), Seq::empty())
}

// ---------------------------------------------------------------------
// Pass two: the grammar, over grouped tokens.
// ---------------------------------------------------------------------

/// The position of the first `,` of this level, if any.
pub open spec fn first_comma(ts: Seq<TreeV>) -> Option<int>
    decreases ts,
{
    if ts.len() == 0 {
        None
    } else if is_punct(ts[0], ',') {
        Some(0int)
    } else {
        match first_comma(ts.subrange(1, ts.len() as int)) {
            Some(p) => Some(p + 1),
            None => None,
        }
    }
}

/// What `first_comma` finds: the first position holding a `,`.
pub proof fn lemma_first_comma(ts: Seq<TreeV>)
    ensures
        match first_comma(ts) {
            Some(p) => 0 <= p < ts.len() && is_punct(ts[p], ',') && forall|k: int|
                0 <= k < p ==> !is_punct(ts[k], ','),
            None => forall|k: int| 0 <= k < ts.len() ==> !is_punct(ts[k], ','),
        },
    decreases ts,
{
    if ts.len() > 0 && !is_punct(ts[0], ',') {
        let rest = ts.subrange(1, ts.len() as int);
        lemma_first_comma(rest);
        match first_comma(rest) {
            Some(q) => {
                assert(first_comma(ts) == Some(q + 1));
                assert(ts[q + 1] == rest[q]);
                assert forall|k: int| 0 <= k < q + 1 implies !is_punct(ts[k], ',') by {
                    if k >= 1 {
                        assert(ts[k] == rest[k - 1]);
                    }
                }
            },
            None => {
                assert forall|k: int| 0 <= k < ts.len() implies !is_punct(ts[k], ',') by {
                    if k >= 1 {
                        assert(ts[k] == rest[k - 1]);
                    }
                }
            },
        }
    }
}

/// `first_comma` from its characterisation: a `,` stands at `p` and
/// nowhere before it.
pub proof fn lemma_first_comma_is(ts: Seq<TreeV>, p: int)
    requires
        0 <= p < ts.len(),
        is_punct(ts[p], ','),
        forall|k: int| 0 <= k < p ==> !is_punct(ts[k], ','),
    ensures
        first_comma(ts) == Some(p),
{
    lemma_first_comma(ts);
    if first_comma(ts) is None {
        assert(!is_punct(ts[p], ','));
    } else {
        let q = first_comma(ts)->Some_0;
        if q < p {
            assert(!is_punct(ts[q], ','));
        } else if q > p {
            assert(!is_punct(ts[p], ','));
        }
    }
}

/// Whether a grouped token sequence starts with a bare identifier.
pub open spec fn starts_with_ident(ts: Seq<TreeV>) -> bool {
    ts.len() > 0 && (ts[0] matches TreeV::Leaf(t) && t.kind matches TokKindV::Ident(_))
}

/// The identifier text of a leaf identifier token.
pub open spec fn ident_text(t: TreeV) -> Seq<char> {
    match t {
        TreeV::Leaf(tok) => match tok.kind {
            TokKindV::Ident(s) => s,
            _ => Seq::empty(),
        },
        _ => Seq::empty(),
    }
}

/// Whether the leading path of `ts` continues past its first segment:
/// `ident :: ident ...`.
pub open spec fn path_continues(ts: Seq<TreeV>) -> bool {
    ts.len() >= 4 && is_punct(ts[1], ':') && is_punct(ts[2], ':') && starts_with_ident(
        ts.subrange(3, ts.len() as int),
    )
}

/// How many tokens the maximal leading path takes: one identifier, then
/// `:: ident` pairs as long as they continue.
pub open spec fn path_len(ts: Seq<TreeV>) -> int
    decreases ts,
{
    if path_continues(ts) {
        3 + path_len(ts.subrange(3, ts.len() as int))
    } else {
        1
    }
}

/// The segments of the maximal leading path.
pub open spec fn path_segs(ts: Seq<TreeV>) -> Seq<Seq<char>>
    decreases ts,
{
    if path_continues(ts) {
        seq![ident_text(ts[0])] + path_segs(ts.subrange(3, ts.len() as int))
    } else {
        seq![ident_text(ts[0])]
    }
}

/// The leading path consumes at least its identifier and no more than
/// the whole sequence.
pub proof fn lemma_path_len(ts: Seq<TreeV>)
    requires
        ts.len() >= 1,
    ensures
        1 <= path_len(ts) <= ts.len(),
    decreases ts,
{
    if path_continues(ts) {
        lemma_path_len(ts.subrange(3, ts.len() as int));
    }
}

/// Whether a grouped token is a group with this delimiter.
pub open spec fn is_group(t: TreeV, d: Delim) -> bool {
    t matches TreeV::Group { delim, .. } && delim == d
}

/// The grouped tokens inside a group token.
pub open spec fn group_inner(t: TreeV) -> Seq<TreeV> {
    match t {
        TreeV::Group { inner, .. } => inner,
        _ => Seq::empty(),
    }
}

/// The span of a group token's closing delimiter.
pub open spec fn group_close_span(t: TreeV) -> nat {
    match t {
        TreeV::Group { close_span, .. } => close_span,
        _ => 0,
    }
}

/// One attribute slot: `ident : expr`, the value being every token
/// after the `:`.
pub open spec fn sp_attr(seg: Seq<TreeV>) -> Result<AttrV, ErrV> {
    if seg.len() == 0 {
        Err(ErrV { kind: ErrKind::ExpectedAttr, span: 0 })
    } else if !starts_with_ident(seg) {
        Err(ErrV { kind: ErrKind::ExpectedAttr, span: tree_span(seg[0]) })
    } else if !(seg.len() >= 2 && is_punct(seg[1], ':')) {
        Err(
            ErrV {
                kind: ErrKind::ExpectedColon,
                span: if seg.len() >= 2 {
                    tree_span(seg[1])
                } else {
                    tree_span(seg[0])
                },
            },
        )
    } else if seg.len() == 2 {
        Err(ErrV { kind: ErrKind::ExpectedExpr, span: tree_span(seg[1]) })
    } else {
        Ok(
            AttrV {
                name: ident_text(seg[0]),
                value: flatten_trees(seg.subrange(2, seg.len() as int)),
            },
        )
    }
}

/// The attribute list inside `![ .. ]`: `ident : expr` slots separated
/// by `,`, a trailing `,` allowed.
pub open spec fn sp_attr_items(inner: Seq<TreeV>) -> Result<Seq<AttrV>, ErrV>
    decreases inner,
{
    if inner.len() == 0 {
        Ok(Seq::empty())
    } else {
        proof {
            lemma_first_comma(inner);
        }
        match first_comma(inner) {
            None => match sp_attr(inner) {
                Ok(a) => Ok(seq![a]),
                Err(e) => Err(e),
            },
            Some(p) => if p == 0 {
                Err(ErrV { kind: ErrKind::ExpectedAttr, span: tree_span(inner[0]) })
            } else {
                match sp_attr(inner.subrange(0, p)) {
                    Err(e) => Err(e),
                    Ok(a) => match sp_attr_items(inner.subrange(p + 1, inner.len() as int)) {
                        Err(e) => Err(e),
                        Ok(more) => Ok(seq![a] + more),
                    },
                }
            },
        }
    }
}

/// The argument list inside `( .. )`: expressions separated by `,`,
/// no trailing `,`.  `close_span` tags a complaint about an argument
/// missing at the very end.
pub open spec fn sp_arg_items(inner: Seq<TreeV>, close_span: nat) -> Result<Seq<Seq<TokV>>, ErrV>
    decreases inner,
{
    if inner.len() == 0 {
        Ok(Seq::empty())
    } else {
        sp_arg_rest(inner, close_span)
    }
}

/// A nonempty remainder of an argument list.
pub open spec fn sp_arg_rest(inner: Seq<TreeV>, close_span: nat) -> Result<Seq<Seq<TokV>>, ErrV>
    decreases inner,
{
    if inner.len() == 0 {
        Err(ErrV { kind: ErrKind::ExpectedExpr, span: close_span })
    } else {
        proof {
            lemma_first_comma(inner);
        }
        match first_comma(inner) {
            None => Ok(seq![flatten_trees(inner)]),
            Some(p) => if p == 0 {
                Err(ErrV { kind: ErrKind::ExpectedExpr, span: tree_span(inner[0]) })
            } else {
                match sp_arg_rest(inner.subrange(p + 1, inner.len() as int), close_span) {
                    Err(e) => Err(e),
                    Ok(more) => Ok(seq![flatten_trees(inner.subrange(0, p))] + more),
                }
            },
        }
    }
}

/// One node: a call — a leading path with at least one of the three
/// sections `( .. )`, `![ .. ]`, `{ .. }`, in that order and nothing
/// after them — or otherwise a bare expression child, kept verbatim.
pub open spec fn sp_node(ts: Seq<TreeV>) -> Result<NodeV, ErrV>
    decreases ts, 1int,
{
    if ts.len() == 0 {
        Err(ErrV { kind: ErrKind::ExpectedNode, span: 0 })
    } else if !starts_with_ident(ts) {
        Ok(NodeV::Expr(flatten_trees(ts)))
    } else {
        proof {
            lemma_path_len(ts);
        }
        let pl = path_len(ts);
        let has_args = pl < ts.len() && is_group(ts[pl], Delim::Paren);
        let k1 = if has_args {
            pl + 1
        } else {
            pl
        };
        let has_attrs = k1 + 1 < ts.len() && is_punct(ts[k1], '!') && is_group(
            ts[k1 + 1],
            Delim::Bracket,
        );
        let k2 = if has_attrs {
            k1 + 2
        } else {
            k1
        };
        let has_children = k2 < ts.len() && is_group(ts[k2], Delim::Brace);
        let k3 = if has_children {
            k2 + 1
        } else {
            k2
        };
        if !has_args && !has_attrs && !has_children {
            Ok(NodeV::Expr(flatten_trees(ts)))
        } else if k3 != ts.len() {
            Err(ErrV { kind: ErrKind::UnexpectedToken, span: tree_span(ts[k3]) })
        } else {
            let args_r: Result<Seq<Seq<TokV>>, ErrV> = if has_args {
                sp_arg_items(group_inner(ts[pl]), group_close_span(ts[pl]))
            } else {
                Ok(Seq::empty())
            };
            match args_r {
                Err(e) => Err(e),
                Ok(args) => {
                    let attrs_r: Result<Seq<AttrV>, ErrV> = if has_attrs {
                        sp_attr_items(group_inner(ts[k1 + 1]))
                    } else {
                        Ok(Seq::empty())
                    };
                    match attrs_r {
                        Err(e) => Err(e),
                        Ok(attrs) => {
                            let children_r: Result<Seq<NodeV>, ErrV> = if has_children {
                                match ts[k2] {
                                    TreeV::Group { inner: cinner, .. } => sp_child_items(cinner),
                                    _ => Ok(Seq::empty()),
                                }
                            } else {
                                Ok(Seq::empty())
                            };
                            match children_r {
                                Err(e) => Err(e),
                                Ok(children) => Ok(
                                    NodeV::Call(
                                        CallV { path: path_segs(ts), args, attrs, children },
                                    ),
                                ),
                            }
                        },
                    }
                },
            }
        }
    }
}

/// The children inside `{ .. }`: nodes separated by `,`, a trailing
/// `,` allowed.
pub open spec fn sp_child_items(inner: Seq<TreeV>) -> Result<Seq<NodeV>, ErrV>
    decreases inner, 2int,
{
    if inner.len() == 0 {
        Ok(Seq::empty())
    } else {
        proof {
            lemma_first_comma(inner);
        }
        match first_comma(inner) {
            None => match sp_node(inner) {
                Ok(n) => Ok(seq![n]),
                Err(e) => Err(e),
            },
            Some(p) => if p == 0 {
                Err(ErrV { kind: ErrKind::ExpectedNode, span: tree_span(inner[0]) })
            } else {
                match sp_node(inner.subrange(0, p)) {
                    Err(e) => Err(e),
                    Ok(n) => match sp_child_items(inner.subrange(p + 1, inner.len() as int)) {
                        Err(e) => Err(e),
                        Ok(more) => Ok(seq![n] + more),
                    },
                }
            },
        }
    }
}

/// The whole parse: an empty block is refused; the tokens are grouped;
/// the block must hold exactly one root node, so a `,` at the top
/// level is refused; the root is parsed.
pub open spec fn sp_markup(s: Seq<TokV>) -> Result<NodeV, ErrV> {
    if s.len() == 0 {
        Err(ErrV { kind: ErrKind::EmptyMarkup, span: 0 })
    } else {
        match sp_group_all(s) {
            Err(e) => Err(e),
            Ok(trees) => match first_comma(trees) {
                Some(p) => Err(ErrV { kind: ErrKind::UnexpectedToken, span: tree_span(trees[p]) }),
                None => sp_node(trees),
            },
        }
    }
}

// ---------------------------------------------------------------------
// The executable parser.
// ---------------------------------------------------------------------

/// Whether this grouped token is the punctuation character `c`.
fn is_punct_tok(t: &Tree, c: char) -> (r: bool)
    ensures
        r == is_punct(t@, c),
{
    match t {
        Tree::Leaf(tok) => match &tok.kind {
            TokKind::Punct(p) => *p == c,
            _ => false,
        },
        _ => false,
    }
}

/// Whether this grouped token is a group with delimiter `d`.
fn is_group_tok(t: &Tree, d: Delim) -> (r: bool)
    ensures
        r == is_group(t@, d),
{
    match t {
        Tree::Group { delim, .. } => *delim == d,
        _ => false,
    }
}

/// The span a diagnostic about this grouped token points at.
fn tree_span_of(t: &Tree) -> (r: usize)
    ensures
        r as nat == tree_span(t@),
{
    match t {
        Tree::Leaf(tok) => tok.span,
        Tree::Group { open_span, .. } => *open_span,
    }
}

/// The identifier text of a leaf identifier token, if it is one.
fn ident_of(t: &Tree) -> (r: Option<String>)
    ensures
        r is Some <==> (t@ matches TreeV::Leaf(tok) && tok.kind matches TokKindV::Ident(_)),
        r matches Some(s) ==> s@ == ident_text(t@),
{
    match t {
        Tree::Leaf(tok) => match &tok.kind {
            TokKind::Ident(s) => Some(s.clone()),
            _ => None,
        },
        _ => None,
    }
}

/// The first `,` at this level in `[from, to)`, if any.
fn find_comma(ts: &Vec<Tree>, from: usize, to: usize) -> (r: Option<usize>)
    requires
        from <= to <= ts.len(),
    ensures
        match r {
            Some(q) => from <= q < to && is_punct(ts@[q as int]@, ',') && forall|k: int|
                from <= k < q ==> !is_punct(ts@[k]@, ','),
            None => forall|k: int| from <= k < to ==> !is_punct(ts@[k]@, ','),
        },
{
    let mut j = from;
    while j < to
        invariant
            from <= j <= to <= ts.len(),
            forall|k: int| from <= k < j ==> !is_punct(ts@[k]@, ','),
        decreases to - j,
    {
        if is_punct_tok(&ts[j], ',') {
            return Some(j);
        }
        j = j + 1;
    }
    None
}

/// Matching delimiters: the flat stream becomes grouped tokens, or the
/// first unmatched delimiter is reported.
pub fn group_tokens(toks: &Vec<Tok>) -> (r: Result<Vec<Tree>, PError>)
    ensures
        match r {
            Ok(trees) => sp_group_all(toks_view(toks@)) == Ok::<Seq<TreeV>, ErrV>(
                trees_view(trees@),
            ),
            Err(e) => sp_group_all(toks_view(toks@)) == Err::<Seq<TreeV>, ErrV>(e@),
        },
{
    let ghost full = toks_view(toks@);
    let mut stack: Vec<Frame> = Vec::new();
    let mut cur: Vec<Tree> = Vec::new();
    let mut i: usize = 0;
    proof {
        assert(full.subrange(0, full.len() as int) =~= full);
        assert(frames_view(stack@) =~= Seq::<FrameV>::empty());
        assert(trees_view(cur@) =~= Seq::<TreeV>::empty());
    }
    while i < toks.len()
        invariant
            i <= toks.len(),
            full == toks_view(toks@),
            sp_group_all(full) == sp_group(
                full.subrange(i as int, full.len() as int),
                frames_view(stack@),
                trees_view(cur@),
            ),
        decreases toks.len() - i,
    {
        let ghost s = full.subrange(i as int, full.len() as int);
        let ghost stv = frames_view(stack@);
        let ghost cuv = trees_view(cur@);
        proof {
            assert(s[0] == full[i as int]);
            assert(s.subrange(1, s.len() as int) =~= full.subrange(i + 1, full.len() as int));
        }
        let tk = &toks[i];
        match &tk.kind {
            TokKind::Open(d) => {
                stack.push(Frame { delim: *d, open_span: tk.span, outer: cur });
                cur = Vec::new();
                proof {
                    assert(frames_view(stack@) =~= stv.push(
                        FrameV { delim: *d, open_span: tk.span as nat, outer: cuv },
                    ));
                    assert(trees_view(cur@) =~= Seq::<TreeV>::empty());
                }
            },
            TokKind::Close(d) => {
                if stack.len() == 0 {
                    proof {
                        assert(sp_group_all(full) == Err::<Seq<TreeV>, ErrV>(
                            ErrV { kind: ErrKind::StrayClose, span: tk.span as nat },
                        ));
                    }
                    return Err(PError { kind: ErrKind::StrayClose, span: tk.span });
                }
                let fr = match stack.pop() {
                    Some(fr) => fr,
                    None => {
                        proof {
                            assert(false);
                        }
                        return Err(PError { kind: ErrKind::StrayClose, span: tk.span });
                    },
                };
                proof {
                    assert(stv.last() == FrameV {
                        delim: fr.delim,
                        open_span: fr.open_span as nat,
                        outer: trees_view(fr.outer@),
                    });
                    assert(frames_view(stack@) =~= stv.drop_last());
                }
                if !(fr.delim == *d) {
                    proof {
                        assert(sp_group_all(full) == Err::<Seq<TreeV>, ErrV>(
                            ErrV { kind: ErrKind::MismatchedClose, span: tk.span as nat },
                        ));
                    }
                    return Err(PError { kind: ErrKind::MismatchedClose, span: tk.span });
                }
                let ghost outer_before = fr.outer@;
                let mut outer = fr.outer;
                outer.push(
                    Tree::Group { delim: *d, open_span: fr.open_span, close_span: tk.span, inner: cur },
                );
                cur = outer;
                proof {
                    lemma_trees_view(cur@);
                    lemma_trees_view(outer_before);
                    assert(trees_view(cur@) =~= stv.last().outer.push(
                        TreeV::Group {
                            delim: *d,
                            open_span: fr.open_span as nat,
                            close_span: tk.span as nat,
                            inner: cuv,
                        },
                    ));
                }
            },
            _ => {
                let ghost cur_before = cur@;
                cur.push(Tree::Leaf(tk.dup()));
                proof {
                    lemma_trees_view(cur@);
                    lemma_trees_view(cur_before);
                    assert(trees_view(cur@) =~= cuv.push(TreeV::Leaf(full[i as int])));
                }
            },
        }
        i = i + 1;
    }
    proof {
        assert(full.subrange(i as int, full.len() as int) =~= Seq::<TokV>::empty());
    }
    if stack.len() > 0 {
        let e = PError { kind: ErrKind::UnclosedDelim, span: stack[stack.len() - 1].open_span };
        proof {
            assert(frames_view(stack@).last() == frames_view(stack@)[stack@.len() - 1]);
            assert(sp_group_all(full) == Err::<Seq<TreeV>, ErrV>(e@));
        }
        return Err(e);
    }
    Ok(cur)
}

/// One open delimiter of the grouping pass, with the grouped tokens of
/// the enclosing level collected so far.
struct Frame {
    delim: Delim,
    open_span: usize,
    outer: Vec<Tree>,
}

/// The mathematical value of a frame stack.
spec fn frames_view(s: Seq<Frame>) -> Seq<FrameV> {
    s.map_values(
        |f: Frame| FrameV { delim: f.delim, open_span: f.open_span as nat, outer: trees_view(f.outer@) },
    )
}

/// `flatten_trees` distributes over appending one tree.
pub proof fn lemma_flatten_trees_snoc(s: Seq<TreeV>, t: TreeV)
    ensures
        flatten_trees(s.push(t)) == flatten_trees(s) + flatten_tree(t),
    decreases s,
{
    if s.len() == 0 {
        assert(s.push(t).subrange(1, 1) =~= Seq::<TreeV>::empty());
        assert(flatten_trees(Seq::<TreeV>::empty()) == Seq::<TokV>::empty());
        assert(s.push(t)[0] == t);
        assert(flatten_trees(s.push(t)) =~= flatten_trees(s) + flatten_tree(t));
    } else {
        let spt = s.push(t);
        assert(spt[0] == s[0]);
        assert(spt.subrange(1, spt.len() as int) =~= s.subrange(1, s.len() as int).push(t));
        lemma_flatten_trees_snoc(s.subrange(1, s.len() as int), t);
        assert(flatten_trees(spt) == flatten_tree(s[0]) + flatten_trees(
            s.subrange(1, s.len() as int).push(t),
        ));
        assert(flatten_trees(s) == flatten_tree(s[0]) + flatten_trees(s.subrange(1, s.len() as int)));
        let a = flatten_tree(s[0]);
        let b = flatten_trees(s.subrange(1, s.len() as int));
        let c = flatten_tree(t);
        assert(flatten_trees(s.subrange(1, s.len() as int).push(t)) == b + c);
        assert(flatten_trees(spt) == a + (b + c));
        assert(a + (b + c) =~= (a + b) + c);
        assert(flatten_trees(s.push(t)) == (a + b) + c);
        assert(flatten_trees(s.push(t)) == flatten_trees(s) + flatten_tree(t));
    }
}

/// Append the flat tokens of one grouped token.
#[verifier::loop_isolation(false)]
fn flatten_onto(t: &Tree, out: &mut Vec<Tok>)
    ensures
        toks_view(final(out)@) == toks_view(old(out)@) + flatten_tree(t@),
    decreases t@,
{
    match t {
        Tree::Leaf(tok) => {
            let ghost before = out@;
            out.push(tok.dup());
            proof {
                assert(toks_view(out@) =~= toks_view(before).push(tok@));
                assert(toks_view(out@) =~= toks_view(before) + flatten_tree(t@));
            }
        },
        Tree::Group { delim, open_span, close_span, inner } => {
            let ghost iv = trees_view(inner@);
            proof {
                lemma_trees_view(inner@);
            }
            let ghost before = out@;
            out.push(Tok { span: *open_span, kind: TokKind::Open(*delim) });
            let ghost afteropen = out@;
            proof {
                assert(toks_view(afteropen) =~= toks_view(before).push(
                    TokV { span: *open_span as nat, kind: TokKindV::Open(*delim) },
                ));
                assert(iv.subrange(0, 0) =~= Seq::<TreeV>::empty());
            }
            let mut j: usize = 0;
            while j < inner.len()
                invariant
                    j <= inner.len(),
                    iv == trees_view(inner@),
                    toks_view(out@) == toks_view(afteropen) + flatten_trees(
                        iv.subrange(0, j as int),
                    ),
                decreases inner.len() - j,
            {
                proof {
                    lemma_trees_view(inner@);
                    assert(iv[j as int] == inner@[j as int]@);
                    assert(*t matches Tree::Group { .. });
                    let gv = tree_view(*t);
                    assert(gv == t@);
                    assert(gv is Group);
                    assert(gv->inner == iv);
                    assert(decreases_to!(gv => gv->inner));
                    assert(decreases_to!(iv => iv[j as int]));
                }
                flatten_onto(&inner[j], out);
                proof {
                    assert(iv.subrange(0, j + 1) =~= iv.subrange(0, j as int).push(iv[j as int]));
                    lemma_flatten_trees_snoc(iv.subrange(0, j as int), iv[j as int]);
                }
                j = j + 1;
            }
            let ghost beforeclose = out@;
            out.push(Tok { span: *close_span, kind: TokKind::Close(*delim) });
            proof {
                assert(toks_view(out@) =~= toks_view(beforeclose).push(
                    TokV { span: *close_span as nat, kind: TokKindV::Close(*delim) },
                ));
                assert(iv.subrange(0, inner@.len() as int) =~= iv);
                assert(toks_view(out@) =~= toks_view(before) + flatten_tree(t@));
            }
        },
    }
}

/// Read the maximal leading path `ident (:: ident)*` of `[from, to)`,
/// appending its segment names to `out`.
fn p_path(ts: &Vec<Tree>, from: usize, to: usize, out: &mut Vec<String>) -> (klen: usize)
    requires
        from < to <= ts.len(),
        starts_with_ident(trees_view(ts@).subrange(from as int, to as int)),
    ensures
        1 <= klen <= to - from,
        klen as int == path_len(trees_view(ts@).subrange(from as int, to as int)),
        path_view(final(out)@) == path_view(old(out)@)
            + path_segs(trees_view(ts@).subrange(from as int, to as int)),
    decreases to - from,
{
    let ghost tv = trees_view(ts@);
    let ghost seg = tv.subrange(from as int, to as int);
    proof {
        lemma_trees_view(ts@);
        assert(seg[0] == tv[from as int]);
    }
    let name = match ident_of(&ts[from]) {
        Some(s) => s,
        None => {
            proof {
                assert(false);
            }
            String::new()
        },
    };
    let ghost out0 = path_view(out@);
    let ghost namev = name@;
    out.push(name);
    proof {
        assert(path_view(out@) =~= out0.push(namev));
        assert(namev == ident_text(seg[0]));
    }
    let cont = if to - from > 3 {
        if is_punct_tok(&ts[from + 1], ':') && is_punct_tok(&ts[from + 2], ':') {
            ident_of(&ts[from + 3]).is_some()
        } else {
            false
        }
    } else {
        false
    };
    proof {
        if to - from > 3 {
            assert(seg[1] == tv[from + 1]);
            assert(seg[2] == tv[from + 2]);
            assert(seg.subrange(3, seg.len() as int) =~= tv.subrange(from + 3, to as int));
            assert(seg.subrange(3, seg.len() as int)[0] == tv[from + 3]);
        }
        assert(cont == path_continues(seg));
    }
    if cont {
        let klen2 = p_path(ts, from + 3, to, out);
        proof {
            assert(seg.subrange(3, seg.len() as int) =~= tv.subrange(from + 3, to as int));
            assert(path_len(seg) == 3 + path_len(tv.subrange(from + 3, to as int)));
            assert(path_segs(seg) == seq![ident_text(seg[0])] + path_segs(
                tv.subrange(from + 3, to as int),
            ));
            assert(path_view(final(out)@) =~= out0 + path_segs(seg));
        }
        3 + klen2
    } else {
        proof {
            assert(path_segs(seg) == seq![ident_text(seg[0])]);
            assert(path_view(out@) =~= out0 + path_segs(seg));
        }
        1
    }
}

/// One attribute slot `ident : expr` filling `[from, to)`.
fn p_attr_one(inner: &Vec<Tree>, from: usize, to: usize) -> (r: Result<Attr, PError>)
    requires
        from < to <= inner.len(),
    ensures
        match r {
            Ok(a) => sp_attr(trees_view(inner@).subrange(from as int, to as int)) == Ok::<
                AttrV,
                ErrV,
            >(a@),
            Err(e) => sp_attr(trees_view(inner@).subrange(from as int, to as int)) == Err::<
                AttrV,
                ErrV,
            >(e@),
        },
{
    let ghost tv = trees_view(inner@);
    let ghost seg = tv.subrange(from as int, to as int);
    proof {
        lemma_trees_view(inner@);
        assert(seg[0] == tv[from as int]);
        if from + 1 < to {
            assert(seg[1] == tv[from + 1]);
        }
    }
    let name = match ident_of(&inner[from]) {
        Some(s) => s,
        None => {
            return Err(PError { kind: ErrKind::ExpectedAttr, span: tree_span_of(&inner[from]) });
        },
    };
    if !(from + 1 < to && is_punct_tok(&inner[from + 1], ':')) {
        let sp = if from + 1 < to {
            tree_span_of(&inner[from + 1])
        } else {
            tree_span_of(&inner[from])
        };
        return Err(PError { kind: ErrKind::ExpectedColon, span: sp });
    }
    if from + 2 == to {
        return Err(PError { kind: ErrKind::ExpectedExpr, span: tree_span_of(&inner[from + 1]) });
    }
    let value = flatten_range(inner, from + 2, to);
    proof {
        assert(seg.subrange(2, seg.len() as int) =~= tv.subrange(from + 2, to as int));
    }
    Ok(Attr { name, value })
}

/// The attribute list inside `![ .. ]`, from `from` on, appended to
/// `out`.
fn p_attr_rec(inner: &Vec<Tree>, from: usize, out: &mut Vec<Attr>) -> (r: Result<(), PError>)
    requires
        from <= inner.len(),
    ensures
        match r {
            Ok(_) => sp_attr_items(trees_view(inner@).subrange(from as int, inner@.len() as int))
                is Ok && attrs_view(final(out)@) == attrs_view(old(out)@) + sp_attr_items(
                trees_view(inner@).subrange(from as int, inner@.len() as int),
            )->Ok_0,
            Err(e) => sp_attr_items(trees_view(inner@).subrange(from as int, inner@.len() as int))
                == Err::<Seq<AttrV>, ErrV>(e@),
        },
    decreases inner.len() - from,
{
    let ghost tv = trees_view(inner@);
    let ghost seg = tv.subrange(from as int, tv.len() as int);
    let ghost out0 = attrs_view(out@);
    proof {
        lemma_trees_view(inner@);
        assert(forall|k: int| 0 <= k < seg.len() ==> seg[k] == tv[from + k]);
    }
    if from == inner.len() {
        proof {
            assert(attrs_view(out@) =~= out0 + Seq::<AttrV>::empty());
        }
        return Ok(());
    }
    let qo = find_comma(inner, from, inner.len());
    let to = match qo {
        Some(q) => {
            proof {
                lemma_first_comma_is(seg, q - from);
            }
            q
        },
        None => {
            proof {
                lemma_first_comma(seg);
                match first_comma(seg) {
                    Some(p) => {
                        assert(is_punct(seg[p], ','));
                        assert(is_punct(tv[from + p], ','));
                        assert(false);
                    },
                    None => {},
                }
            }
            inner.len()
        },
    };
    if to == from {
        return Err(PError { kind: ErrKind::ExpectedAttr, span: tree_span_of(&inner[from]) });
    }
    let a = match p_attr_one(inner, from, to) {
        Ok(a) => a,
        Err(e) => {
            proof {
                assert(seg.subrange(0, to - from) =~= tv.subrange(from as int, to as int));
            }
            return Err(e);
        },
    };
    proof {
        assert(seg.subrange(0, to - from) =~= tv.subrange(from as int, to as int));
    }
    let ghost av = a@;
    out.push(a);
    proof {
        assert(attrs_view(out@) =~= out0.push(av));
    }
    match qo {
        None => {
            proof {
                assert(attrs_view(out@) =~= out0 + seq![av]);
            }
            Ok(())
        },
        Some(q) => {
            let r2 = p_attr_rec(inner, q + 1, out);
            proof {
                assert(seg.subrange(q - from + 1, seg.len() as int) =~= tv.subrange(
                    q + 1,
                    tv.len() as int,
                ));
            }
            match r2 {
                Ok(_) => {
                    proof {
                        let more = sp_attr_items(tv.subrange(q + 1, tv.len() as int))->Ok_0;
                        assert(attrs_view(final(out)@) =~= out0 + (seq![av] + more));
                    }
                    Ok(())
                },
                Err(e) => Err(e),
            }
        },
    }
}

/// The argument list inside `( .. )`, from `from` on, appended to
/// `out`; a `,` must be followed by another argument.
fn p_arg_rec(inner: &Vec<Tree>, from: usize, close_span: usize, out: &mut Vec<Vec<Tok>>) -> (r:
    Result<(), PError>)
    requires
        from <= inner.len(),
    ensures
        match r {
            Ok(_) => sp_arg_rest(
                trees_view(inner@).subrange(from as int, inner@.len() as int),
                close_span as nat,
            ) is Ok && args_view(final(out)@) == args_view(old(out)@) + sp_arg_rest(
                trees_view(inner@).subrange(from as int, inner@.len() as int),
                close_span as nat,
            )->Ok_0,
            Err(e) => sp_arg_rest(
                trees_view(inner@).subrange(from as int, inner@.len() as int),
                close_span as nat,
            ) == Err::<Seq<Seq<TokV>>, ErrV>(e@),
        },
    decreases inner.len() - from,
{
    let ghost tv = trees_view(inner@);
    let ghost seg = tv.subrange(from as int, tv.len() as int);
    let ghost out0 = args_view(out@);
    proof {
        lemma_trees_view(inner@);
        assert(forall|k: int| 0 <= k < seg.len() ==> seg[k] == tv[from + k]);
    }
    if from == inner.len() {
        return Err(PError { kind: ErrKind::ExpectedExpr, span: close_span });
    }
    let qo = find_comma(inner, from, inner.len());
    let to = match qo {
        Some(q) => {
            proof {
                lemma_first_comma_is(seg, q - from);
            }
            q
        },
        None => {
            proof {
                lemma_first_comma(seg);
                match first_comma(seg) {
                    Some(p) => {
                        assert(is_punct(seg[p], ','));
                        assert(is_punct(tv[from + p], ','));
                        assert(false);
                    },
                    None => {},
                }
            }
            inner.len()
        },
    };
    if to == from {
        return Err(PError { kind: ErrKind::ExpectedExpr, span: tree_span_of(&inner[from]) });
    }
    let v = flatten_range(inner, from, to);
    proof {
        assert(seg.subrange(0, to - from) =~= tv.subrange(from as int, to as int));
        if qo is None {
            assert(seg.subrange(0, to - from) =~= seg);
        }
    }
    let ghost vv = toks_view(v@);
    out.push(v);
    proof {
        assert(args_view(out@) =~= out0.push(vv));
    }
    match qo {
        None => {
            proof {
                assert(args_view(out@) =~= out0 + seq![vv]);
            }
            Ok(())
        },
        Some(q) => {
            let r2 = p_arg_rec(inner, q + 1, close_span, out);
            proof {
                assert(seg.subrange(q - from + 1, seg.len() as int) =~= tv.subrange(
                    q + 1,
                    tv.len() as int,
                ));
            }
            match r2 {
                Ok(_) => {
                    proof {
                        let more = sp_arg_rest(
                            tv.subrange(q + 1, tv.len() as int),
                            close_span as nat,
                        )->Ok_0;
                        assert(args_view(final(out)@) =~= out0 + (
                        seq![vv] + more));
                    }
                    Ok(())
                },
                Err(e) => Err(e),
            }
        },
    }
}

/// The whole argument list inside `( .. )`.
fn p_arg_items(inner: &Vec<Tree>, close_span: usize) -> (r: Result<Vec<Vec<Tok>>, PError>)
    ensures
        match r {
            Ok(v) => sp_arg_items(trees_view(inner@), close_span as nat) == Ok::<
                Seq<Seq<TokV>>,
                ErrV,
            >(args_view(v@)),
            Err(e) => sp_arg_items(trees_view(inner@), close_span as nat) == Err::<
                Seq<Seq<TokV>>,
                ErrV,
            >(e@),
        },
{
    let ghost tv = trees_view(inner@);
    proof {
        lemma_trees_view(inner@);
    }
    let mut out: Vec<Vec<Tok>> = Vec::new();
    if inner.len() == 0 {
        proof {
            assert(args_view(out@) =~= Seq::<Seq<TokV>>::empty());
        }
        return Ok(out);
    }
    proof {
        assert(tv.subrange(0, inner@.len() as int) =~= tv);
        assert(args_view(out@) =~= Seq::<Seq<TokV>>::empty());
    }
    match p_arg_rec(inner, 0, close_span, &mut out) {
        Ok(_) => {
            proof {
                assert(Seq::<Seq<TokV>>::empty() + sp_arg_rest(tv, close_span as nat)->Ok_0
                    =~= sp_arg_rest(tv, close_span as nat)->Ok_0);
                assert(args_view(out@) =~= sp_arg_rest(
                    tv,
                    close_span as nat,
                )->Ok_0);
            }
            Ok(out)
        },
        Err(e) => Err(e),
    }
}

/// The whole attribute list inside `![ .. ]`.
fn p_attr_items(inner: &Vec<Tree>) -> (r: Result<Vec<Attr>, PError>)
    ensures
        match r {
            Ok(v) => sp_attr_items(trees_view(inner@)) == Ok::<Seq<AttrV>, ErrV>(
                attrs_view(v@),
            ),
            Err(e) => sp_attr_items(trees_view(inner@)) == Err::<Seq<AttrV>, ErrV>(e@),
        },
{
    let ghost tv = trees_view(inner@);
    let mut out: Vec<Attr> = Vec::new();
    proof {
        lemma_trees_view(inner@);
        assert(tv.subrange(0, inner@.len() as int) =~= tv);
        assert(attrs_view(out@) =~= Seq::<AttrV>::empty());
    }
    match p_attr_rec(inner, 0, &mut out) {
        Ok(_) => {
            proof {
                assert(Seq::<AttrV>::empty() + sp_attr_items(tv)->Ok_0 =~= sp_attr_items(tv)->Ok_0);
                assert(attrs_view(out@) =~= sp_attr_items(tv)->Ok_0);
            }
            Ok(out)
        },
        Err(e) => Err(e),
    }
}

/// The flat tokens of the grouped tokens in `[from, to)`.
fn flatten_range(ts: &Vec<Tree>, from: usize, to: usize) -> (out: Vec<Tok>)
    requires
        from <= to <= ts.len(),
    ensures
        toks_view(out@) == flatten_trees(trees_view(ts@).subrange(from as int, to as int)),
{
    let ghost tv = trees_view(ts@);
    let mut out: Vec<Tok> = Vec::new();
    proof {
        lemma_trees_view(ts@);
        assert(tv.subrange(from as int, from as int) =~= Seq::<TreeV>::empty());
        assert(toks_view(out@) =~= flatten_trees(tv.subrange(from as int, from as int)));
    }
    let mut j = from;
    while j < to
        invariant
            from <= j <= to <= ts.len(),
            tv == trees_view(ts@),
            toks_view(out@) == flatten_trees(tv.subrange(from as int, j as int)),
        decreases to - j,
    {
        proof {
            lemma_trees_view(ts@);
        }
        flatten_onto(&ts[j], &mut out);
        proof {
            assert(tv.subrange(from as int, j + 1) =~= tv.subrange(from as int, j as int).push(
                tv[j as int],
            ));
            lemma_flatten_trees_snoc(tv.subrange(from as int, j as int), tv[j as int]);
            assert(tv[j as int] == ts@[j as int]@);
        }
        j = j + 1;
    }
    out
}

/// The children inside `{ .. }`, from `from` on, appended to `out`.
fn p_child_rec(inner: &Vec<Tree>, from: usize, out: &mut Vec<Node>) -> (r: Result<(), PError>)
    requires
        from <= inner.len(),
    ensures
        match r {
            Ok(_) => sp_child_items(trees_view(inner@).subrange(from as int, inner@.len() as int))
                is Ok && nodes_view(final(out)@) == nodes_view(old(out)@) + sp_child_items(
                trees_view(inner@).subrange(from as int, inner@.len() as int),
            )->Ok_0,
            Err(e) => sp_child_items(trees_view(inner@).subrange(from as int, inner@.len() as int))
                == Err::<Seq<NodeV>, ErrV>(e@),
        },
    decreases trees_view(inner@).subrange(from as int, inner@.len() as int), 2int,
{
    let ghost tv = trees_view(inner@);
    let ghost seg = tv.subrange(from as int, inner@.len() as int);
    let ghost out0 = nodes_view(out@);
    proof {
        lemma_trees_view(inner@);
        lemma_nodes_view(out@);
        assert(forall|k: int| 0 <= k < seg.len() ==> seg[k] == tv[from + k]);
    }
    if from == inner.len() {
        proof {
            assert(nodes_view(out@) =~= out0 + Seq::<NodeV>::empty());
        }
        return Ok(());
    }
    let qo = find_comma(inner, from, inner.len());
    let to = match qo {
        Some(q) => {
            proof {
                lemma_first_comma_is(seg, q - from);
            }
            q
        },
        None => {
            proof {
                lemma_first_comma(seg);
                match first_comma(seg) {
                    Some(p) => {
                        assert(is_punct(seg[p], ','));
                        assert(is_punct(tv[from + p], ','));
                        assert(false);
                    },
                    None => {},
                }
            }
            inner.len()
        },
    };
    if to == from {
        return Err(PError { kind: ErrKind::ExpectedNode, span: tree_span_of(&inner[from]) });
    }
    proof {
        assert(seg.subrange(0, to - from) =~= tv.subrange(from as int, to as int));
        if to < inner.len() {
            assert(decreases_to!(seg => seg.subrange(0, to - from)));
        }
    }
    let n = match p_node(inner, from, to) {
        Ok(n) => n,
        Err(e) => {
            return Err(e);
        },
    };
    let ghost nv = n@;
    let ghost outpre = out@;
    out.push(n);
    proof {
        lemma_nodes_view(out@);
        lemma_nodes_view(outpre);
        assert(nodes_view(out@) =~= out0.push(nv));
    }
    match qo {
        None => {
            proof {
                assert(nodes_view(out@) =~= out0 + seq![nv]);
            }
            Ok(())
        },
        Some(q) => {
            proof {
                assert(seg.subrange(q - from + 1, seg.len() as int) =~= tv.subrange(
                    q + 1,
                    inner@.len() as int,
                ));
                assert(decreases_to!(seg => seg.subrange(q - from + 1, seg.len() as int)));
            }
            match p_child_rec(inner, q + 1, out) {
                Ok(_) => {
                    proof {
                        let more = sp_child_items(tv.subrange(q + 1, inner@.len() as int))->Ok_0;
                        assert(nodes_view(out@) =~= out0 + (seq![nv] + more));
                    }
                    Ok(())
                },
                Err(e) => Err(e),
            }
        },
    }
}

/// One node in `[from, to)`: a call with at least one section, or a
/// bare expression child kept verbatim.
#[verifier::rlimit(60)]
fn p_node(ts: &Vec<Tree>, from: usize, to: usize) -> (r: Result<Node, PError>)
    requires
        from <= to <= ts.len(),
    ensures
        match r {
            Ok(n) => sp_node(trees_view(ts@).subrange(from as int, to as int)) == Ok::<
                NodeV,
                ErrV,
            >(n@),
            Err(e) => sp_node(trees_view(ts@).subrange(from as int, to as int)) == Err::<
                NodeV,
                ErrV,
            >(e@),
        },
    decreases trees_view(ts@).subrange(from as int, to as int), 1int,
{
    let ghost tv = trees_view(ts@);
    let ghost seg = tv.subrange(from as int, to as int);
    proof {
        lemma_trees_view(ts@);
        assert(forall|k: int| 0 <= k < seg.len() ==> seg[k] == tv[from + k]);
    }
    if from == to {
        return Err(PError { kind: ErrKind::ExpectedNode, span: 0 });
    }
    let is_id = match ident_of(&ts[from]) {
        Some(_) => true,
        None => false,
    };
    if !is_id {
        proof {
            assert(!starts_with_ident(seg));
        }
        let v = flatten_range(ts, from, to);
        return Ok(Node::Expr(v));
    }
    proof {
        assert(starts_with_ident(seg));
    }
    let mut path: Vec<String> = Vec::new();
    let pl = p_path(ts, from, to, &mut path);
    proof {
        assert(path_view(path@) =~= path_segs(seg));
    }
    let mut k = from + pl;
    let has_args = k < to && is_group_tok(&ts[k], Delim::Paren);
    let argpos = k;
    if has_args {
        k = k + 1;
    }
    let has_attrs = to - k > 1 && is_punct_tok(&ts[k], '!') && is_group_tok(
        &ts[k + 1],
        Delim::Bracket,
    );
    let attrpos = if has_attrs {
        k + 1
    } else {
        k
    };
    if has_attrs {
        k = k + 2;
    }
    let has_children = k < to && is_group_tok(&ts[k], Delim::Brace);
    let childpos = k;
    if has_children {
        k = k + 1;
    }
    proof {
        let spl = path_len(seg);
        assert(spl == pl as int);
        assert(has_args == (spl < seg.len() && is_group(seg[spl], Delim::Paren)));
        let sk1 = if has_args {
            spl + 1
        } else {
            spl
        };
        assert(has_attrs == (sk1 + 1 < seg.len() && is_punct(seg[sk1], '!') && is_group(
            seg[sk1 + 1],
            Delim::Bracket,
        )));
        let sk2 = if has_attrs {
            sk1 + 2
        } else {
            sk1
        };
        assert(has_children == (sk2 < seg.len() && is_group(seg[sk2], Delim::Brace)));
    }
    if !has_args && !has_attrs && !has_children {
        let v = flatten_range(ts, from, to);
        return Ok(Node::Expr(v));
    }
    if k != to {
        proof {
            assert(seg[k - from] == tv[k as int]);
        }
        return Err(PError { kind: ErrKind::UnexpectedToken, span: tree_span_of(&ts[k]) });
    }
    let args: Vec<Vec<Tok>> = if has_args {
        match &ts[argpos] {
            Tree::Group { inner, close_span, .. } => {
                proof {
                    assert(seg[argpos - from] == tv[argpos as int]);
                    assert(group_inner(seg[argpos - from]) == trees_view(inner@));
                    assert(group_close_span(seg[argpos - from]) == *close_span as nat);
                }
                match p_arg_items(inner, *close_span) {
                    Ok(a) => a,
                    Err(e) => {
                        return Err(e);
                    },
                }
            },
            _ => {
                proof {
                    assert(false);
                }
                Vec::new()
            },
        }
    } else {
        Vec::new()
    };
    let attrs: Vec<Attr> = if has_attrs {
        match &ts[attrpos] {
            Tree::Group { inner, .. } => {
                proof {
                    assert(seg[attrpos - from] == tv[attrpos as int]);
                    assert(group_inner(seg[attrpos - from]) == trees_view(inner@));
                }
                match p_attr_items(inner) {
                    Ok(a) => a,
                    Err(e) => {
                        return Err(e);
                    },
                }
            },
            _ => {
                proof {
                    assert(false);
                }
                Vec::new()
            },
        }
    } else {
        Vec::new()
    };
    let children: Vec<Node> = if has_children {
        match &ts[childpos] {
            Tree::Group { inner, .. } => {
                let mut ch: Vec<Node> = Vec::new();
                proof {
                    assert(seg[childpos - from] == tv[childpos as int]);
                    let gv = seg[childpos - from];
                    assert(gv is Group);
                    assert(gv->inner == trees_view(inner@));
                    assert(decreases_to!(seg => seg[childpos - from]));
                    assert(decreases_to!(gv => gv->inner));
                    lemma_trees_view(inner@);
                    assert(trees_view(inner@).subrange(0, inner@.len() as int) =~= trees_view(
                        inner@,
                    ));
                    lemma_nodes_view(ch@);
                }
                match p_child_rec(inner, 0, &mut ch) {
                    Ok(_) => {
                        proof {
                            assert(nodes_view(ch@) =~= sp_child_items(trees_view(inner@))->Ok_0);
                        }
                        ch
                    },
                    Err(e) => {
                        return Err(e);
                    },
                }
            },
            _ => {
                proof {
                    assert(false);
                }
                Vec::new()
            },
        }
    } else {
        Vec::new()
    };
    let node = Node::Call(Call { path, args, attrs, children });
    proof {
        if !has_args {
            assert(args_view(args@) =~= Seq::<Seq<TokV>>::empty());
        }
        if !has_attrs {
            assert(attrs_view(attrs@) =~= Seq::<AttrV>::empty());
        }
        if !has_children {
            assert(nodes_view(children@) =~= Seq::<NodeV>::empty());
        }
        assert(sp_node(seg) == Ok::<NodeV, ErrV>(node@));
    }
    Ok(node)
}

/// Parse one whole markup block: group the flat tokens, refuse a `,`
/// at the top level, and read the one root node.
pub fn parse_markup(toks: &Vec<Tok>) -> (r: Result<Markup, PError>)
    ensures
        match r {
            Ok(m) => sp_markup(toks_view(toks@)) == Ok::<NodeV, ErrV>(m@.root),
            Err(e) => sp_markup(toks_view(toks@)) == Err::<NodeV, ErrV>(e@),
        },
{
    if toks.len() == 0 {
        return Err(PError { kind: ErrKind::EmptyMarkup, span: 0 });
    }
    let trees = match group_tokens(toks) {
        Ok(t) => t,
        Err(e) => {
            return Err(e);
        },
    };
    let ghost tv = trees_view(trees@);
    proof {
        lemma_trees_view(trees@);
    }
    match find_comma(&trees, 0, trees.len()) {
        Some(q) => {
            proof {
                lemma_first_comma_is(tv, q as int);
            }
            return Err(PError { kind: ErrKind::UnexpectedToken, span: tree_span_of(&trees[q]) });
        },
        None => {
            proof {
                lemma_first_comma(tv);
                match first_comma(tv) {
                    Some(p) => {
                        assert(is_punct(tv[p], ','));
                        assert(false);
                    },
                    None => {},
                }
            }
        },
    }
    proof {
        assert(tv.subrange(0, trees@.len() as int) =~= tv);
    }
    match p_node(&trees, 0, trees.len()) {
        Ok(n) => Ok(Markup { root: n }),
        Err(e) => Err(e),
    }
}

} // verus!
