//! The typed tree the parser produces and the code generator consumes.
//!
//! A markup block is one root [`Node`].  A node is either a *call* — a
//! widget or component built by name, with optional positional
//! arguments, attributes and children — or a bare *expression child*,
//! raw tokens used directly as a child.  Attribute and child order is
//! meaningful and is kept exactly as written; duplicate attribute keys
//! are kept as separate entries.

use vstd::prelude::*;

use crate::token::{toks_view, Tok, TokV};

verus! {

/// One attribute: a key and the raw expression tokens of its value.
#[derive(Debug, PartialEq, Eq)]
pub struct Attr {
    pub name: String,
    pub value: Vec<Tok>,
}

/// The mathematical value of an [`Attr`].
pub struct AttrV {
    pub name: Seq<char>,
    pub value: Seq<TokV>,
}

impl View for Attr {
    type V = AttrV;

    open spec fn view(&self) -> AttrV {
        AttrV { name: self.name@, value: toks_view(self.value@) }
    }
}

/// A widget or component call: a (possibly `::`-qualified) name,
/// ordered positional arguments, ordered attributes, ordered children.
#[derive(Debug, PartialEq, Eq)]
pub struct Call {
    pub path: Vec<String>,
    pub args: Vec<Vec<Tok>>,
    pub attrs: Vec<Attr>,
    pub children: Vec<Node>,
}

/// One node of the tree.
#[derive(Debug, PartialEq, Eq)]
pub enum Node {
    /// A widget or component call.
    Call(Call),
    /// A bare expression used directly as a child; it carries no
    /// attributes and no children of its own.
    Expr(Vec<Tok>),
}

/// The parse result: a markup block wraps exactly one root node.
#[derive(Debug, PartialEq, Eq)]
pub struct Markup {
    pub root: Node,
}

/// The mathematical value of a [`Call`].
pub struct CallV {
    pub path: Seq<Seq<char>>,
    pub args: Seq<Seq<TokV>>,
    pub attrs: Seq<AttrV>,
    pub children: Seq<NodeV>,
}

/// The mathematical value of a [`Node`].
pub enum NodeV {
    Call(CallV),
    Expr(Seq<TokV>),
}

/// The mathematical value of a [`Markup`].
pub struct MarkupV {
    pub root: NodeV,
}

/// The mathematical value of a path: each segment's characters.
pub open spec fn path_view(s: Seq<String>) -> Seq<Seq<char>> {
    s.map_values(|x: String| x@)
}

/// The mathematical value of an argument list: each argument's tokens.
pub open spec fn args_view(s: Seq<Vec<Tok>>) -> Seq<Seq<TokV>> {
    s.map_values(|x: Vec<Tok>| toks_view(x@))
}

/// The mathematical value of an attribute list.
pub open spec fn attrs_view(s: Seq<Attr>) -> Seq<AttrV> {
    s.map_values(|x: Attr| x@)
}

/// The mathematical value of one node.
pub open spec fn node_view(n: Node) -> NodeV
    decreases n,
{
    match n {
        Node::Expr(v) => NodeV::Expr(toks_view(v@)),
        Node::Call(c) => NodeV::Call(
            CallV {
                path: path_view(c.path@),
                args: args_view(c.args@),
                attrs: attrs_view(c.attrs@),
                children: nodes_view(c.children@),
            },
        ),
    }
}

/// The mathematical value of a sequence of nodes, in order.
pub open spec fn nodes_view(s: Seq<Node>) -> Seq<NodeV>
    decreases s,
{
    if s.len() == 0 {
        Seq::empty()
    } else {
        seq![node_view(s[0])] + nodes_view(s.subrange(1, s.len() as int))
    }
}

impl View for Node {
    type V = NodeV;

    open spec fn view(&self) -> NodeV {
        node_view(*self)
    }
}

impl View for Markup {
    type V = MarkupV;

    open spec fn view(&self) -> MarkupV {
        MarkupV { root: self.root@ }
    }
}

/// `nodes_view` is the element-wise view.
pub proof fn lemma_nodes_view(s: Seq<Node>)
    ensures
        nodes_view(s).len() == s.len(),
        forall|i: int| 0 <= i < s.len() ==> nodes_view(s)[i] == node_view(s[i]),
    decreases s,
{
    if s.len() > 0 {
        lemma_nodes_view(s.subrange(1, s.len() as int));
    }
}

} // verus!
