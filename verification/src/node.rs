//! The tree that a parse hands out. Every slice in it lies in the arena or
//! in the input text; `represents` ties it to the tree of the grammar, text
//! by its bytes.

use crate::grammar::{FieldsTree, Tree};
use vstd::prelude::*;
use vstd::string::StringSliceAdditionalSpecFns;

verus! {

/// The generic parameters of a struct value, in the order written.
#[derive(Debug, PartialEq, Eq)]
pub struct Generics<'a> {
    pub params: &'a [&'a str],
}

/// The payload of a struct value.
#[derive(Debug, PartialEq, Eq)]
pub enum Fields<'a> {
    Unit,
    Tuple(&'a [DebugNode<'a>]),
    Struct(&'a [(&'a str, DebugNode<'a>)]),
}

/// One value of the notation. Text is kept as it stands in the input:
/// digits with their sign, and string contents with their escapes.
#[derive(Debug, PartialEq, Eq)]
pub enum DebugNode<'a> {
    Ellipsis,
    Int(&'a str),
    Str(&'a str),
    Tuple(&'a [DebugNode<'a>]),
    List(&'a [DebugNode<'a>]),
    Struct(&'a str, Option<&'a Generics<'a>>, Fields<'a>),
    Region(usize, usize),
    Position(usize),
    Loc(usize, usize, &'a DebugNode<'a>),
}

/// The path identifiers in `params` are those of `names`, in order.
pub open spec fn paths_match(params: Seq<&str>, names: Seq<Seq<u8>>) -> bool {
    params.len() == names.len() && forall|i: int|
        0 <= i < names.len() ==> (#[trigger] params[i]).spec_bytes() == names[i]
}

/// `generics` holds the parameters `names`, or both are absent.
pub open spec fn generics_match(generics: Option<&Generics<'_>>, names: Option<Seq<Seq<u8>>>)
    -> bool {
    match (generics, names) {
        (None, None) => true,
        (Some(g), Some(ns)) => paths_match(g.params@, ns),
        _ => false,
    }
}

/// Node by node, `items` are the trees `trees`.
pub open spec fn nodes_represent(items: Seq<DebugNode<'_>>, trees: Seq<Tree>) -> bool
    decreases trees, 1nat,
{
    items.len() == trees.len() && forall|i: int|
        0 <= i < trees.len() ==> (#[trigger] items[i]).represents(trees[i])
}

/// Pair by pair, `items` are the named trees `trees`.
pub open spec fn pairs_represent(items: Seq<(&str, DebugNode<'_>)>, trees: Seq<(Seq<u8>, Tree)>)
    -> bool
    decreases trees, 1nat,
{
    items.len() == trees.len() && forall|i: int|
        0 <= i < trees.len() ==> pair_represents(#[trigger] items[i], trees[i])
}

/// The pair has the name and the tree of `tree`.
pub open spec fn pair_represents(item: (&str, DebugNode<'_>), tree: (Seq<u8>, Tree)) -> bool
    decreases tree, 0nat,
{
    item.0.spec_bytes() == tree.0 && item.1.represents(tree.1)
}

impl<'a> Fields<'a> {
    /// This payload is exactly `tree`.
    pub open spec fn represents(self, tree: FieldsTree) -> bool
        decreases tree, 0nat,
    {
        match (self, tree) {
            (Fields::Unit, FieldsTree::Unit) => true,
            (Fields::Tuple(items), FieldsTree::Tuple(trees)) => nodes_represent(items@, trees),
            (Fields::Struct(items), FieldsTree::Struct(trees)) => pairs_represent(items@, trees),
            _ => false,
        }
    }
}

impl<'a> DebugNode<'a> {
    /// This node is exactly `tree`: the same variant, the same bytes and
    /// numbers, and children that are the children of `tree`, in order.
    pub open spec fn represents(self, tree: Tree) -> bool
        decreases tree, 0nat,
    {
        match (self, tree) {
            (DebugNode::Ellipsis, Tree::Ellipsis) => true,
            (DebugNode::Int(a), Tree::Int(b)) => a.spec_bytes() == b,
            (DebugNode::Str(a), Tree::Str(b)) => a.spec_bytes() == b,
            (DebugNode::Tuple(items), Tree::Tuple(trees)) => nodes_represent(items@, trees),
            (DebugNode::List(items), Tree::List(trees)) => nodes_represent(items@, trees),
            (DebugNode::Struct(name, generics, fields), Tree::Struct(n, g, f)) => name.spec_bytes()
                == n
                && generics_match(generics, g) && fields.represents(f),
            (DebugNode::Region(a, b), Tree::Region(s, e)) => a == s && b == e,
            (DebugNode::Position(a), Tree::Position(s)) => a == s,
            (DebugNode::Loc(a, b, child), Tree::Loc(s, e, t)) => a == s && b == e
                && child.represents(*t),
            _ => false,
        }
    }
}

} // verus!
