//! Laws the compiler obeys, stated and proved once for all inputs.
//!
//! Each proof function here is a public statement about the
//! specification functions that the executable parser and emitter are
//! proved against, so it holds of everything the crate does.

use vstd::prelude::*;

use crate::ast::{AttrV, CallV, NodeV};
use crate::codegen::{attr_chain, callee_toks, ctor_toks, gen_tok, join_comma, lemma_lower_nodes,
    lower_node, lower_nodes};
use crate::parser::{first_comma, lemma_first_comma, lemma_first_comma_is, sp_attr, sp_attr_items,
    sp_child_items, sp_group, sp_group_all, ErrV, FrameV};
use crate::token::{flatten_tree, flatten_trees, is_punct, Delim, TokKindV, TokV, TreeV};

verus! {

/// The flat tokens a grouping state stands for: every still-open
/// level's collected tokens with its opening delimiter, then the
/// innermost level's.
spec fn unwind(stack: Seq<FrameV>, cur: Seq<TreeV>) -> Seq<TokV>
    decreases stack,
{
    if stack.len() == 0 {
        flatten_trees(cur)
    } else {
        unwind(stack.drop_last(), stack.last().outer) + seq![
            TokV { span: stack.last().open_span, kind: TokKindV::Open(stack.last().delim) },
        ] + flatten_trees(cur)
    }
}

/// Appending one grouped token to the innermost level appends its
/// flat tokens.
proof fn lemma_unwind_snoc(stack: Seq<FrameV>, cur: Seq<TreeV>, t: TreeV)
    ensures
        unwind(stack, cur.push(t)) == unwind(stack, cur) + flatten_tree(t),
{
    crate::parser::lemma_flatten_trees_snoc(cur, t);
    if stack.len() == 0 {
        assert(unwind(stack, cur.push(t)) =~= unwind(stack, cur) + flatten_tree(t));
    } else {
        assert(unwind(stack, cur.push(t)) =~= unwind(stack, cur) + flatten_tree(t));
    }
}

/// The grouping pass only rearranges: whatever state it is in, the
/// grouped result flattens back to the tokens already taken apart
/// followed by the tokens still to come.
proof fn lemma_group_unwind(s: Seq<TokV>, stack: Seq<FrameV>, cur: Seq<TreeV>)
    requires
        sp_group(s, stack, cur) is Ok,
    ensures
        flatten_trees(sp_group(s, stack, cur)->Ok_0) == unwind(stack, cur) + s,
    decreases s,
{
    if s.len() == 0 {
        assert(unwind(stack, cur) + s =~= flatten_trees(cur));
    } else {
        let rest = s.subrange(1, s.len() as int);
        match s[0].kind {
            TokKindV::Open(d) => {
                let fr = FrameV { delim: d, open_span: s[0].span, outer: cur };
                lemma_group_unwind(rest, stack.push(fr), Seq::empty());
                assert(stack.push(fr).drop_last() =~= stack);
                assert(flatten_trees(Seq::<TreeV>::empty()) == Seq::<TokV>::empty());
                assert(TokV { span: fr.open_span, kind: TokKindV::Open(fr.delim) } == s[0]);
                assert(unwind(stack.push(fr), Seq::empty()) =~= unwind(stack, cur) + seq![s[0]]);
                assert((unwind(stack, cur) + seq![s[0]]) + rest =~= unwind(stack, cur) + s);
            },
            TokKindV::Close(d) => {
                let fr = stack.last();
                let g = TreeV::Group {
                    delim: d,
                    open_span: fr.open_span,
                    close_span: s[0].span,
                    inner: cur,
                };
                lemma_group_unwind(rest, stack.drop_last(), fr.outer.push(g));
                lemma_unwind_snoc(stack.drop_last(), fr.outer, g);
                assert(flatten_tree(g) == seq![
                    TokV { span: fr.open_span, kind: TokKindV::Open(d) },
                ] + flatten_trees(cur) + seq![TokV { span: s[0].span, kind: TokKindV::Close(d) }]);
                assert(TokV { span: s[0].span, kind: TokKindV::Close(d) } == s[0]);
                assert(unwind(stack.drop_last(), fr.outer.push(g)) =~= unwind(stack, cur) + seq![
                    s[0],
                ]);
                assert((unwind(stack, cur) + seq![s[0]]) + rest =~= unwind(stack, cur) + s);
            },
            _ => {
                lemma_group_unwind(rest, stack, cur.push(TreeV::Leaf(s[0])));
                lemma_unwind_snoc(stack, cur, TreeV::Leaf(s[0]));
                assert(unwind(stack, cur.push(TreeV::Leaf(s[0]))) =~= unwind(stack, cur) + seq![
                    s[0],
                ]);
                assert((unwind(stack, cur) + seq![s[0]]) + rest =~= unwind(stack, cur) + s);
            },
        }
    }
}

/// Source fidelity of the grouping pass: when delimiter matching
/// succeeds, the grouped tokens flatten back to the source stream,
/// token for token — grouping loses nothing and invents nothing.
pub proof fn law_grouping_preserves_tokens(s: Seq<TokV>)
    requires
        sp_group_all(s) is Ok,
    ensures
        flatten_trees(sp_group_all(s)->Ok_0) == s,
{
    lemma_group_unwind(s, Seq::empty(), Seq::empty());
    assert(flatten_trees(Seq::<TreeV>::empty()) == Seq::<TokV>::empty());
    assert(unwind(Seq::empty(), Seq::empty()) + s =~= s);
}

/// A bare expression used as a child appears in the output verbatim,
/// token for token: lowering it is the identity.
pub proof fn law_expr_child_passthrough(ts: Seq<TokV>)
    ensures
        lower_node(NodeV::Expr(ts)) == ts,
{
}

/// Structural fidelity of a lowered call: the construction comes
/// first and the attribute chain strictly after it; when the call has
/// children, the construction is the bracketed collection of the
/// children, each lowered recursively, in declared order, and the
/// attributes never stand among them.
pub proof fn law_call_lowering_shape(c: CallV)
    ensures
        lower_node(NodeV::Call(c)) == callee_toks(c.path) + ctor_toks(c) + attr_chain(c.attrs),
        c.children.len() > 0 ==> ctor_toks(c) == seq![
            gen_tok(TokKindV::Punct('!')),
            gen_tok(TokKindV::Open(Delim::Bracket)),
        ] + join_comma(lower_nodes(c.children)) + seq![gen_tok(TokKindV::Close(Delim::Bracket))],
        lower_nodes(c.children).len() == c.children.len(),
        forall|i: int| 0 <= i < c.children.len() ==> lower_nodes(c.children)[i] == lower_node(
            c.children[i],
        ),
{
    lemma_lower_nodes(c.children);
}

/// Attribute order is preserved: the setter chain of a concatenated
/// attribute list is the concatenation of the chains, so each
/// attribute's `.key(value)` call stands exactly where the attribute
/// was declared, duplicates kept as separate calls.
pub proof fn law_attr_chain_order(a: Seq<AttrV>, b: Seq<AttrV>)
    ensures
        attr_chain(a + b) == attr_chain(a) + attr_chain(b),
    decreases a,
{
    if a.len() == 0 {
        assert(a + b =~= b);
        assert(attr_chain(a) =~= Seq::<TokV>::empty());
        assert(attr_chain(a) + attr_chain(b) =~= attr_chain(b));
    } else {
        let rest = a.subrange(1, a.len() as int);
        law_attr_chain_order(rest, b);
        assert((a + b).subrange(1, (a + b).len() as int) =~= rest + b);
        assert((a + b)[0] == a[0]);
        let head = seq![
            gen_tok(TokKindV::Punct('.')),
            gen_tok(TokKindV::Ident(a[0].name)),
            gen_tok(TokKindV::Open(Delim::Paren)),
        ] + a[0].value + seq![gen_tok(TokKindV::Close(Delim::Paren))];
        assert(attr_chain(a + b) == head + (attr_chain(rest) + attr_chain(b)));
        assert(attr_chain(a) == head + attr_chain(rest));
        assert(head + (attr_chain(rest) + attr_chain(b)) =~= (head + attr_chain(rest))
            + attr_chain(b));
    }
}

/// Where the first `,` of a list stands after one more `,` is appended
/// at the end: unchanged if there was one, at the old end otherwise.
proof fn lemma_first_comma_push(ts: Seq<TreeV>, t: TreeV)
    requires
        is_punct(t, ','),
    ensures
        match first_comma(ts) {
            Some(p) => first_comma(ts.push(t)) == Some(p),
            None => first_comma(ts.push(t)) == Some(ts.len() as int),
        },
{
    lemma_first_comma(ts);
    match first_comma(ts) {
        Some(p) => {
            assert(ts.push(t)[p] == ts[p]);
            assert(forall|k: int| 0 <= k < p ==> ts.push(t)[k] == ts[k]);
            lemma_first_comma_is(ts.push(t), p);
        },
        None => {
            assert(ts.push(t)[ts.len() as int] == t);
            assert(forall|k: int| 0 <= k < ts.len() ==> ts.push(t)[k] == ts[k]);
            lemma_first_comma_is(ts.push(t), ts.len() as int);
        },
    }
}

/// Trailing separator idempotence for children blocks: a block whose
/// items parse, and which does not already end in a separator, parses
/// to exactly the same children after a trailing `,` is appended.
pub proof fn law_trailing_separator_children(inner: Seq<TreeV>, t: TreeV)
    requires
        is_punct(t, ','),
        inner.len() > 0,
        !is_punct(inner.last(), ','),
        sp_child_items(inner) is Ok,
    ensures
        sp_child_items(inner.push(t)) == sp_child_items(inner),
    decreases inner.len(),
{
    let s2 = inner.push(t);
    lemma_first_comma(inner);
    lemma_first_comma_push(inner, t);
    match first_comma(inner) {
        None => {
            assert(first_comma(s2) == Some(inner.len() as int));
            assert(s2.subrange(0, inner.len() as int) =~= inner);
            assert(s2.subrange(inner.len() as int + 1, s2.len() as int) =~= Seq::<TreeV>::empty());
            assert(sp_child_items(Seq::<TreeV>::empty()) == Ok::<Seq<NodeV>, crate::parser::ErrV>(
                Seq::<NodeV>::empty(),
            ));
            let n = sp_child_items(inner)->Ok_0[0];
            assert(sp_child_items(inner) == Ok::<Seq<NodeV>, crate::parser::ErrV>(seq![n]));
            assert(sp_child_items(s2) == Ok::<Seq<NodeV>, crate::parser::ErrV>(seq![n] + Seq::<NodeV>::empty()));
            assert(seq![n] + Seq::<NodeV>::empty() =~= seq![n]);
        },
        Some(p) => {
            assert(p < inner.len() - 1);
            let rest = inner.subrange(p + 1, inner.len() as int);
            assert(rest.len() > 0);
            assert(rest.last() == inner.last());
            law_trailing_separator_children(rest, t);
            assert(s2.subrange(0, p) =~= inner.subrange(0, p));
            assert(s2.subrange(p + 1, s2.len() as int) =~= rest.push(t));
        },
    }
}

/// Trailing separator idempotence for attribute lists: a list whose
/// slots parse, and which does not already end in a separator, parses
/// to exactly the same attributes after a trailing `,` is appended.
pub proof fn law_trailing_separator_attrs(inner: Seq<TreeV>, t: TreeV)
    requires
        is_punct(t, ','),
        inner.len() > 0,
        !is_punct(inner.last(), ','),
        sp_attr_items(inner) is Ok,
    ensures
        sp_attr_items(inner.push(t)) == sp_attr_items(inner),
    decreases inner.len(),
{
    let s2 = inner.push(t);
    lemma_first_comma(inner);
    lemma_first_comma_push(inner, t);
    match first_comma(inner) {
        None => {
            assert(first_comma(s2) == Some(inner.len() as int));
            assert(s2.subrange(0, inner.len() as int) =~= inner);
            assert(s2.subrange(inner.len() as int + 1, s2.len() as int) =~= Seq::<TreeV>::empty());
            assert(sp_attr_items(Seq::<TreeV>::empty()) == Ok::<Seq<AttrV>, crate::parser::ErrV>(
                Seq::<AttrV>::empty(),
            ));
            let a = sp_attr(inner)->Ok_0;
            assert(sp_attr_items(inner) == Ok::<Seq<AttrV>, crate::parser::ErrV>(seq![a]));
            assert(sp_attr_items(s2) == Ok::<Seq<AttrV>, crate::parser::ErrV>(seq![a] + Seq::<AttrV>::empty()));
            assert(seq![a] + Seq::<AttrV>::empty() =~= seq![a]);
        },
        Some(p) => {
            assert(p < inner.len() - 1);
            let rest = inner.subrange(p + 1, inner.len() as int);
            assert(rest.len() > 0);
            assert(rest.last() == inner.last());
            law_trailing_separator_attrs(rest, t);
            assert(s2.subrange(0, p) =~= inner.subrange(0, p));
            assert(s2.subrange(p + 1, s2.len() as int) =~= rest.push(t));
        },
    }
}

} // verus!
