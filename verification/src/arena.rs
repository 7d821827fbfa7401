//! The arena that owns a tree, as far as the parser uses it. Nothing in this
//! file is proved: each item states what bumpalo does. Like every
//! allocation, these calls end the program where memory runs out or a
//! vector would grow past `isize::MAX` bytes; nothing is claimed of that.

use crate::node::DebugNode;
use bumpalo::collections::Vec as BumpVec;
use bumpalo::Bump;
use vstd::prelude::*;

verus! {

/// `bumpalo::Bump`, carried through as an opaque value.
#[verifier::external_type_specification]
#[verifier::external_body]
pub struct ExBump<const MIN_ALIGN: usize>(Bump<MIN_ALIGN>);

/// `bumpalo::collections::Vec`, carried through as an opaque value.
#[verifier::external_type_specification]
#[verifier::external_body]
#[verifier::reject_recursive_types(T)]
pub struct ExBumpVec<'bump, T>(BumpVec<'bump, T>);

/// A growing sequence of nodes in the arena.
pub type NodeVec<'a> = BumpVec<'a, DebugNode<'a>>;

/// A growing sequence of path identifiers in the arena.
pub type PathVec<'a> = BumpVec<'a, &'a str>;

/// A growing sequence of named nodes in the arena.
pub type FieldVec<'a> = BumpVec<'a, (&'a str, DebugNode<'a>)>;

/// What a `NodeVec` holds, first pushed first.
pub uninterp spec fn node_items(v: NodeVec<'_>) -> Seq<DebugNode<'_>>;

/// What a `PathVec` holds, first pushed first.
pub uninterp spec fn path_items(v: PathVec<'_>) -> Seq<&str>;

/// What a `FieldVec` holds, first pushed first.
pub uninterp spec fn field_items(v: FieldVec<'_>) -> Seq<(&str, DebugNode<'_>)>;

/// `Bump::alloc`: moves `val` into the arena and lends it out for as long as
/// the arena lives. Claimed: the place holds `val`.
#[verifier::external_body]
pub(crate) fn alloc_in<'a, T>(bump: &'a Bump, val: T) -> (r: &'a T)
    ensures
        *r == val,
{
    bump.alloc(val)
}

/// `Vec::new_in` for nodes. Claimed: the new vector is empty.
#[verifier::external_body]
pub(crate) fn new_node_vec<'a>(bump: &'a Bump) -> (v: NodeVec<'a>)
    ensures
        node_items(v) == Seq::<DebugNode<'a>>::empty(),
{
    BumpVec::new_in(bump)
}

/// `Vec::push` for nodes. Claimed: `item` is appended, the rest stays.
#[verifier::external_body]
pub(crate) fn push_node<'a>(v: &mut NodeVec<'a>, item: DebugNode<'a>)
    ensures
        node_items(*final(v)) == node_items(*old(v)).push(item),
{
    v.push(item)
}

/// `Vec::into_bump_slice` for nodes. Claimed: the slice holds what the
/// vector held, in the same order.
#[verifier::external_body]
pub(crate) fn node_slice<'a>(v: NodeVec<'a>) -> (r: &'a [DebugNode<'a>])
    ensures
        r@ == node_items(v),
{
    v.into_bump_slice()
}

/// `Vec::new_in` for path identifiers. Claimed: the new vector is empty.
#[verifier::external_body]
pub(crate) fn new_path_vec<'a>(bump: &'a Bump) -> (v: PathVec<'a>)
    ensures
        path_items(v) == Seq::<&'a str>::empty(),
{
    BumpVec::new_in(bump)
}

/// `Vec::push` for path identifiers. Claimed: `item` is appended, the rest
/// stays.
#[verifier::external_body]
pub(crate) fn push_path<'a>(v: &mut PathVec<'a>, item: &'a str)
    ensures
        path_items(*final(v)) == path_items(*old(v)).push(item),
{
    v.push(item)
}

/// `Vec::into_bump_slice` for path identifiers. Claimed: the slice holds
/// what the vector held, in the same order.
#[verifier::external_body]
pub(crate) fn path_slice<'a>(v: PathVec<'a>) -> (r: &'a [&'a str])
    ensures
        r@ == path_items(v),
{
    v.into_bump_slice()
}

/// `Vec::new_in` for named nodes. Claimed: the new vector is empty.
#[verifier::external_body]
pub(crate) fn new_field_vec<'a>(bump: &'a Bump) -> (v: FieldVec<'a>)
    ensures
        field_items(v) == Seq::<(&'a str, DebugNode<'a>)>::empty(),
{
    BumpVec::new_in(bump)
}

/// `Vec::push` for named nodes. Claimed: `item` is appended, the rest stays.
#[verifier::external_body]
pub(crate) fn push_field<'a>(v: &mut FieldVec<'a>, item: (&'a str, DebugNode<'a>))
    ensures
        field_items(*final(v)) == field_items(*old(v)).push(item),
{
    v.push(item)
}

/// `Vec::into_bump_slice` for named nodes. Claimed: the slice holds what the
/// vector held, in the same order.
#[verifier::external_body]
pub(crate) fn field_slice<'a>(v: FieldVec<'a>) -> (r: &'a [(&'a str, DebugNode<'a>)])
    ensures
        r@ == field_items(v),
{
    v.into_bump_slice()
}

} // verus!
