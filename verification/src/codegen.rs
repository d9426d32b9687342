//! The code generator: from one tree to one builder expression.
//!
//! Lowering is total on every tree and emits flat tokens:
//!
//! * a call with no children becomes `name(arg1, arg2, ...)` — empty
//!   parentheses when there are no positional arguments;
//! * a call with children becomes the collection-constructor form
//!   `name![child1, child2, ...]`, each child lowered recursively; the
//!   collection form supersedes positional arguments;
//! * either way, one setter call per attribute is chained after the
//!   construction, `.key(value)`, in declared order, duplicates kept;
//! * a bare expression child is emitted verbatim, token for token.
//!
//! A callee that is a single identifier starting with a lower-case
//! ASCII letter names a toolkit widget and is qualified as
//! `iced::widget::name`; a `::`-qualified path or a capitalized name
//! is a user component and is emitted as written.  Every token the
//! generator invents carries the reserved span `0`.

use vstd::prelude::*;

use crate::ast::{lemma_nodes_view, node_view, nodes_view, Attr, AttrV, Call, CallV, Markup, Node,
    NodeV};
use crate::token::{toks_view, Delim, Tok, TokKind, TokKindV, TokV};

verus! {

/// A generated token: the given kind, at the reserved span `0`.
pub open spec fn gen_tok(kind: TokKindV) -> TokV {
    TokV { span: 0, kind }
}

/// Whether a callee path names a user component rather than a toolkit
/// widget: a qualified path, or a name with an upper-case ASCII
/// initial.
pub open spec fn is_component(path: Seq<Seq<char>>) -> bool {
    path.len() != 1 || (path[0].len() > 0 && 65 <= path[0][0] as u32 <= 90)
}

/// A path emitted as written: identifiers separated by `::`.
pub open spec fn path_toks(path: Seq<Seq<char>>) -> Seq<TokV>
    decreases path,
{
    if path.len() == 0 {
        Seq::empty()
    } else if path.len() == 1 {
        seq![gen_tok(TokKindV::Ident(path[0]))]
    } else {
        seq![
            gen_tok(TokKindV::Ident(path[0])),
            gen_tok(TokKindV::Punct(':')),
            gen_tok(TokKindV::Punct(':')),
        ] + path_toks(path.subrange(1, path.len() as int))
    }
}

/// The tokens naming the callee: the toolkit qualification for a
/// widget, the path as written for a component.
pub open spec fn callee_toks(path: Seq<Seq<char>>) -> Seq<TokV> {
    if is_component(path) {
        path_toks(path)
    } else {
        seq![
            gen_tok(TokKindV::Ident("iced"@)),
            gen_tok(TokKindV::Punct(':')),
            gen_tok(TokKindV::Punct(':')),
            gen_tok(TokKindV::Ident("widget"@)),
            gen_tok(TokKindV::Punct(':')),
            gen_tok(TokKindV::Punct(':')),
        ] + path_toks(path)
    }
}

/// Token runs joined by single `,` separators, none trailing.
pub open spec fn join_comma(items: Seq<Seq<TokV>>) -> Seq<TokV>
    decreases items,
{
    if items.len() == 0 {
        Seq::empty()
    } else if items.len() == 1 {
        items[0]
    } else {
        items[0] + seq![gen_tok(TokKindV::Punct(','))] + join_comma(
            items.subrange(1, items.len() as int),
        )
    }
}

/// The chained setter calls of an attribute list: `.key(value)` for
/// each attribute, in declared order, duplicates kept.
pub open spec fn attr_chain(attrs: Seq<AttrV>) -> Seq<TokV>
    decreases attrs,
{
    if attrs.len() == 0 {
        Seq::empty()
    } else {
        seq![
            gen_tok(TokKindV::Punct('.')),
            gen_tok(TokKindV::Ident(attrs[0].name)),
            gen_tok(TokKindV::Open(Delim::Paren)),
        ] + attrs[0].value + seq![gen_tok(TokKindV::Close(Delim::Paren))] + attr_chain(
            attrs.subrange(1, attrs.len() as int),
        )
    }
}

/// Each node of a sequence lowered, in order.
pub open spec fn lower_nodes(ns: Seq<NodeV>) -> Seq<Seq<TokV>>
    decreases ns,
{
    if ns.len() == 0 {
        Seq::empty()
    } else {
        seq![lower_node(ns[0])] + lower_nodes(ns.subrange(1, ns.len() as int))
    }
}

/// The construction part of a lowered call: the children as one
/// bracketed collection when there are any, the positional arguments
/// in parentheses otherwise.
pub open spec fn ctor_toks(c: CallV) -> Seq<TokV>
    decreases c,
{
    if c.children.len() > 0 {
        seq![gen_tok(TokKindV::Punct('!')), gen_tok(TokKindV::Open(Delim::Bracket))] + join_comma(
            lower_nodes(c.children),
        ) + seq![gen_tok(TokKindV::Close(Delim::Bracket))]
    } else {
        seq![gen_tok(TokKindV::Open(Delim::Paren))] + join_comma(c.args) + seq![
            gen_tok(TokKindV::Close(Delim::Paren)),
        ]
    }
}

/// The lowering of one node: construction first, the attribute chain
/// strictly after it; a bare expression verbatim.
pub open spec fn lower_node(n: NodeV) -> Seq<TokV>
    decreases n,
{
    match n {
        NodeV::Expr(ts) => ts,
        NodeV::Call(c) => callee_toks(c.path) + ctor_toks(c) + attr_chain(c.attrs),
    }
}

/// `lower_nodes` is the element-wise lowering.
pub proof fn lemma_lower_nodes(ns: Seq<NodeV>)
    ensures
        lower_nodes(ns).len() == ns.len(),
        forall|i: int| 0 <= i < ns.len() ==> lower_nodes(ns)[i] == lower_node(ns[i]),
    decreases ns,
{
    if ns.len() > 0 {
        lemma_lower_nodes(ns.subrange(1, ns.len() as int));
    }
}

// ---------------------------------------------------------------------
// The executable emitter.
// ---------------------------------------------------------------------

/// Append one generated token.
fn push_gen(out: &mut Vec<Tok>, kind: TokKind)
    ensures
        toks_view(final(out)@) == toks_view(old(out)@).push(gen_tok(kind@)),
{
    let ghost k = kind@;
    out.push(Tok { span: 0, kind });
    proof {
        assert(toks_view(out@) =~= toks_view(old(out)@).push(gen_tok(k)));
    }
}

/// Append a copy of every token of `v`.
fn emit_toks(out: &mut Vec<Tok>, v: &Vec<Tok>)
    ensures
        toks_view(final(out)@) == toks_view(old(out)@) + toks_view(v@),
{
    let mut i: usize = 0;
    while i < v.len()
        invariant
            i <= v.len(),
            toks_view(out@) == toks_view(old(out)@) + toks_view(v@.subrange(0, i as int)),
        decreases v.len() - i,
    {
        let ghost before = out@;
        out.push(v[i].dup());
        proof {
            assert(out@ == before.push(v@[i as int]));
            assert(toks_view(out@) =~= toks_view(before).push(v@[i as int]@));
            assert(v@.subrange(0, i + 1) =~= v@.subrange(0, i as int).push(v@[i as int]));
            assert(toks_view(v@.subrange(0, i + 1)) =~= toks_view(v@.subrange(0, i as int)).push(
                v@[i as int]@,
            ));
            assert(toks_view(out@) =~= toks_view(old(out)@) + toks_view(v@.subrange(0, i + 1)));
        }
        i = i + 1;
    }
    proof {
        assert(v@.subrange(0, v@.len() as int) =~= v@);
    }
}

/// Append a path as written: identifiers separated by `::`, from
/// segment `i` on.
fn emit_path_from(out: &mut Vec<Tok>, path: &Vec<String>, i: usize)
    requires
        i < path.len(),
    ensures
        toks_view(final(out)@) == toks_view(old(out)@) + path_toks(
            path@.map_values(|s: String| s@).subrange(i as int, path@.len() as int),
        ),
    decreases path.len() - i,
{
    let ghost pv = path@.map_values(|s: String| s@);
    let ghost suffix = pv.subrange(i as int, path@.len() as int);
    push_gen(out, TokKind::Ident(path[i].clone()));
    if i + 1 < path.len() {
        push_gen(out, TokKind::Punct(':'));
        push_gen(out, TokKind::Punct(':'));
        emit_path_from(out, path, i + 1);
        proof {
            assert(suffix.subrange(1, suffix.len() as int) =~= pv.subrange(
                i + 1,
                path@.len() as int,
            ));
            assert(toks_view(out@) =~= toks_view(old(out)@) + path_toks(suffix));
        }
    } else {
        proof {
            assert(suffix =~= seq![pv[i as int]]);
            assert(toks_view(out@) =~= toks_view(old(out)@) + path_toks(suffix));
        }
    }
}

/// Append the callee tokens: the toolkit qualification for a widget,
/// the path as written for a component.
fn emit_callee(out: &mut Vec<Tok>, path: &Vec<String>)
    ensures
        toks_view(final(out)@) == toks_view(old(out)@) + callee_toks(path@.map_values(|s: String| s@)),
{
    let ghost pv = path@.map_values(|s: String| s@);
    if path.len() == 0 {
        proof {
            assert(toks_view(out@) =~= toks_view(old(out)@) + callee_toks(pv));
        }
        return ;
    }
    let component = if path.len() != 1 {
        true
    } else {
        let s = path[0].as_str();
        if s.unicode_len() > 0 {
            let u = s.get_char(0) as u32;
            65 <= u && u <= 90
        } else {
            false
        }
    };
    proof {
        assert(component == is_component(pv));
    }
    if !component {
        push_gen(out, TokKind::Ident("iced".to_owned()));
        push_gen(out, TokKind::Punct(':'));
        push_gen(out, TokKind::Punct(':'));
        push_gen(out, TokKind::Ident("widget".to_owned()));
        push_gen(out, TokKind::Punct(':'));
        push_gen(out, TokKind::Punct(':'));
    }
    emit_path_from(out, path, 0);
    proof {
        assert(pv.subrange(0, path@.len() as int) =~= pv);
        assert(toks_view(out@) =~= toks_view(old(out)@) + callee_toks(pv));
    }
}

/// Append the setter chain `.key(value)` for each attribute from `i`
/// on, in declared order.
fn emit_attrs_from(out: &mut Vec<Tok>, attrs: &Vec<Attr>, i: usize)
    requires
        i <= attrs.len(),
    ensures
        toks_view(final(out)@) == toks_view(old(out)@) + attr_chain(
            attrs@.map_values(|a: Attr| a@).subrange(i as int, attrs@.len() as int),
        ),
    decreases attrs.len() - i,
{
    let ghost av = attrs@.map_values(|a: Attr| a@);
    let ghost suffix = av.subrange(i as int, attrs@.len() as int);
    if i == attrs.len() {
        proof {
            assert(toks_view(out@) =~= toks_view(old(out)@) + attr_chain(suffix));
        }
    } else {
        push_gen(out, TokKind::Punct('.'));
        push_gen(out, TokKind::Ident(attrs[i].name.clone()));
        push_gen(out, TokKind::Open(Delim::Paren));
        emit_toks(out, &attrs[i].value);
        push_gen(out, TokKind::Close(Delim::Paren));
        emit_attrs_from(out, attrs, i + 1);
        proof {
            assert(suffix.subrange(1, suffix.len() as int) =~= av.subrange(
                i + 1,
                attrs@.len() as int,
            ));
            assert(toks_view(out@) =~= toks_view(old(out)@) + attr_chain(suffix));
        }
    }
}

/// Append the positional arguments from `i` on, joined by `,`.
fn emit_args_from(out: &mut Vec<Tok>, args: &Vec<Vec<Tok>>, i: usize)
    requires
        i <= args.len(),
    ensures
        toks_view(final(out)@) == toks_view(old(out)@) + join_comma(
            args@.map_values(|v: Vec<Tok>| toks_view(v@)).subrange(i as int, args@.len() as int),
        ),
    decreases args.len() - i,
{
    let ghost av = args@.map_values(|v: Vec<Tok>| toks_view(v@));
    let ghost suffix = av.subrange(i as int, args@.len() as int);
    if i == args.len() {
        proof {
            assert(toks_view(out@) =~= toks_view(old(out)@) + join_comma(suffix));
        }
    } else {
        emit_toks(out, &args[i]);
        if i + 1 < args.len() {
            push_gen(out, TokKind::Punct(','));
            emit_args_from(out, args, i + 1);
            proof {
                assert(suffix.subrange(1, suffix.len() as int) =~= av.subrange(
                    i + 1,
                    args@.len() as int,
                ));
                assert(toks_view(out@) =~= toks_view(old(out)@) + join_comma(suffix));
            }
        } else {
            proof {
                assert(suffix =~= seq![av[i as int]]);
                assert(toks_view(out@) =~= toks_view(old(out)@) + join_comma(suffix));
            }
        }
    }
}

/// Append the lowered children from `i` on, joined by `,`.
fn emit_children_from(out: &mut Vec<Tok>, children: &Vec<Node>, i: usize)
    requires
        i <= children.len(),
    ensures
        toks_view(final(out)@) == toks_view(old(out)@) + join_comma(
            lower_nodes(nodes_view(children@).subrange(i as int, children@.len() as int)),
        ),
    decreases nodes_view(children@).subrange(i as int, children@.len() as int), 1int,
{
    let ghost cv = nodes_view(children@);
    let ghost suffix = cv.subrange(i as int, children@.len() as int);
    proof {
        lemma_nodes_view(children@);
    }
    if i == children.len() {
        proof {
            assert(toks_view(out@) =~= toks_view(old(out)@) + join_comma(lower_nodes(suffix)));
        }
    } else {
        proof {
            assert(suffix[0] == node_view(children@[i as int]));
            assert(decreases_to!(suffix => suffix[0]));
        }
        emit_node(&children[i], out);
        if i + 1 < children.len() {
            push_gen(out, TokKind::Punct(','));
            proof {
                assert(suffix.subrange(1, suffix.len() as int) =~= cv.subrange(
                    i + 1,
                    children@.len() as int,
                ));
                assert(decreases_to!(suffix => suffix.subrange(1, suffix.len() as int)));
            }
            emit_children_from(out, children, i + 1);
            proof {
                lemma_lower_nodes(suffix);
                assert(lower_nodes(suffix).subrange(1, lower_nodes(suffix).len() as int)
                    =~= lower_nodes(suffix.subrange(1, suffix.len() as int)));
                assert(toks_view(out@) =~= toks_view(old(out)@) + join_comma(lower_nodes(suffix)));
            }
        } else {
            proof {
                assert(suffix =~= seq![cv[i as int]]);
                lemma_lower_nodes(suffix);
                assert(lower_nodes(suffix).len() == 1);
                assert(join_comma(lower_nodes(suffix)) == lower_nodes(suffix)[0]);
                assert(lower_nodes(suffix)[0] == lower_node(suffix[0]));
                assert(toks_view(out@) =~= toks_view(old(out)@) + join_comma(lower_nodes(suffix)));
            }
        }
    }
}

/// Append the lowering of one node.
pub fn emit_node(n: &Node, out: &mut Vec<Tok>)
    ensures
        toks_view(final(out)@) == toks_view(old(out)@) + lower_node(n@),
    decreases n@, 0int,
{
    match n {
        Node::Expr(v) => {
            emit_toks(out, v);
        },
        Node::Call(c) => {
            let ghost cv = node_view(*n)->Call_0;
            emit_callee(out, &c.path);
            if c.children.len() > 0 {
                push_gen(out, TokKind::Punct('!'));
                push_gen(out, TokKind::Open(Delim::Bracket));
                proof {
                    lemma_nodes_view(c.children@);
                    assert(nodes_view(c.children@).subrange(0, c.children@.len() as int)
                        =~= nodes_view(c.children@));
                    assert(decreases_to!(n@ => cv));
                    assert(decreases_to!(cv => cv.children));
                }
                emit_children_from(out, &c.children, 0);
                push_gen(out, TokKind::Close(Delim::Bracket));
            } else {
                push_gen(out, TokKind::Open(Delim::Paren));
                proof {
                    assert(c.args@.map_values(|v: Vec<Tok>| toks_view(v@)).subrange(
                        0,
                        c.args@.len() as int,
                    ) =~= cv.args);
                }
                emit_args_from(out, &c.args, 0);
                push_gen(out, TokKind::Close(Delim::Paren));
            }
            proof {
                assert(c.attrs@.map_values(|a: Attr| a@).subrange(0, c.attrs@.len() as int)
                    =~= cv.attrs);
            }
            emit_attrs_from(out, &c.attrs, 0);
            proof {
                assert(c.path@.map_values(|s: String| s@) =~= cv.path);
                assert(nodes_view(c.children@) =~= cv.children);
                assert(toks_view(out@) =~= toks_view(old(out)@) + lower_node(n@));
            }
        },
    }
}

/// Lower one markup block to its builder expression.
pub fn emit_markup(m: &Markup) -> (out: Vec<Tok>)
    ensures
        toks_view(out@) == lower_node(m@.root),
{
    let mut out: Vec<Tok> = Vec::new();
    emit_node(&m.root, &mut out);
    proof {
        assert(toks_view(out@) =~= lower_node(m@.root));
    }
    out
}

} // verus!
