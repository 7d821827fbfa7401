//! What holds of the grammar and of every parse, whatever the input.

use crate::cursor::ParseError;
use crate::grammar::{
    at_terminator, byte_is, ellipsis_marker, lemma_run_is_maximal, remaining, run_len, skip_ws,
    spec_field, spec_field_items, spec_field_seq, spec_fields, spec_location, spec_node,
    spec_node_items, spec_node_seq, spec_path_items, spec_path_seq, spec_separator,
    spec_string_body, spec_struct, starts_with, tag_angle, tag_brace, tag_bracket, tag_paren,
    ByteClass, FieldsTree, Parsed, Separator, Tree, AT_SIGN, BACKSLASH, CLOSE_ANGLE,
    CLOSE_BRACE, CLOSE_BRACKET, CLOSE_PAREN, COLON, COMMA, MINUS, OPEN_ANGLE, OPEN_BRACE,
    OPEN_BRACKET, OPEN_PAREN, QUOTE,
};
use crate::node::{nodes_represent, pair_represents, paths_match, DebugNode, Fields};
use crate::parse::node_read;
use vstd::prelude::*;
use vstd::string::StringSliceAdditionalSpecFns;

verus! {

/// The outcome lies in the text behind `pos`: a value ends behind `pos`, and
/// no later than the text; an error points at `pos` or behind it, at the end
/// of the text at most.
pub open spec fn advances<T>(r: Parsed<T>, text: Seq<u8>, pos: int) -> bool {
    match r {
        Parsed::Done { value, next } => pos < next <= text.len(),
        Parsed::Failed { tag, at } => pos <= at <= text.len(),
    }
}

/// As `advances`, but a value may be empty and end at `pos`.
pub open spec fn stays_inside<T>(r: Parsed<T>, text: Seq<u8>, pos: int) -> bool {
    match r {
        Parsed::Done { value, next } => pos <= next <= text.len(),
        Parsed::Failed { tag, at } => pos <= at <= text.len(),
    }
}

/// A separator that is found ends behind `pos` and inside the text; one that
/// is missed is missed at `pos`.
pub proof fn lemma_separator_advances(text: Seq<u8>, pos: int, end: u8)
    requires
        0 <= pos <= text.len(),
    ensures
        match spec_separator(text, pos, end) {
            Separator::Close { next } => pos < next <= text.len(),
            Separator::More { next } => pos < next <= text.len(),
            Separator::Bad { at } => at == pos,
        },
{
    if byte_is(text, pos, COMMA) {
        lemma_run_is_maximal(text, pos + 1, ByteClass::Space);
    }
}

/// A string literal ends behind its closing quote, inside the text; an
/// error in it lies at the scan's offset or behind it.
pub proof fn lemma_string_advances(text: Seq<u8>, start: int, pos: int)
    requires
        0 <= pos <= text.len(),
    ensures
        advances(spec_string_body(text, start, pos), text, pos),
    decreases text.len() - pos,
{
    if pos < text.len() {
        if text[pos] == BACKSLASH {
            if pos + 1 < text.len() {
                if text[pos + 1] == QUOTE || text[pos + 1] == BACKSLASH {
                    lemma_string_advances(text, start, pos + 2);
                } else {
                    lemma_string_advances(text, start, pos + 1);
                }
            }
        } else if text[pos] != QUOTE {
            lemma_string_advances(text, start, pos + 1);
        }
    }
}

/// The body of a string literal is the text between `start` and the quote
/// that closes it, and the scan ends just behind that quote.
pub proof fn lemma_string_ends_at_quote(text: Seq<u8>, start: int, pos: int)
    requires
        0 <= pos <= text.len(),
    ensures
        spec_string_body(text, start, pos) matches Parsed::Done { value, next } ==> byte_is(
            text,
            next - 1,
            QUOTE,
        ) && pos < next && value == text.subrange(start, next - 1),
    decreases text.len() - pos,
{
    if pos < text.len() {
        if text[pos] == BACKSLASH {
            if pos + 1 < text.len() {
                if text[pos + 1] == QUOTE || text[pos + 1] == BACKSLASH {
                    lemma_string_ends_at_quote(text, start, pos + 2);
                } else {
                    lemma_string_ends_at_quote(text, start, pos + 1);
                }
            }
        } else if text[pos] != QUOTE {
            lemma_string_ends_at_quote(text, start, pos + 1);
        }
    }
}

/// The elements of a sequence of path identifiers end behind `pos`.
pub proof fn lemma_path_items_advance(
    text: Seq<u8>,
    pos: int,
    end: u8,
    tag: Seq<char>,
    acc: Seq<Seq<u8>>,
)
    requires
        0 <= pos <= text.len(),
    ensures
        advances(spec_path_items(text, pos, end, tag, acc), text, pos),
    decreases remaining(text, pos),
{
    let n = run_len(text, pos, ByteClass::Path);
    lemma_run_is_maximal(text, pos, ByteClass::Path);
    if n > 0 {
        let behind = skip_ws(text, pos + n);
        lemma_run_is_maximal(text, pos + n, ByteClass::Space);
        lemma_separator_advances(text, behind, end);
        match spec_separator(text, behind, end) {
            Separator::More { next } => {
                lemma_path_items_advance(text, next, end, tag, acc.push(text.subrange(pos, pos + n)));
            },
            _ => {},
        }
    }
}

/// A sequence of path identifiers ends behind its closing byte.
pub proof fn lemma_path_seq_advances(text: Seq<u8>, pos: int, end: u8, tag: Seq<char>)
    requires
        0 <= pos <= text.len(),
    ensures
        advances(spec_path_seq(text, pos, end, tag), text, pos),
{
    let p = skip_ws(text, pos);
    lemma_run_is_maximal(text, pos, ByteClass::Space);
    if !byte_is(text, p, end) {
        lemma_path_items_advance(text, p, end, tag, Seq::empty());
    }
}

/// A node takes at least one byte and ends inside the text; an error lies
/// between the offset at which the node was looked for and the end of the
/// text, both included.
pub proof fn lemma_node_advances(text: Seq<u8>, pos: int)
    requires
        0 <= pos <= text.len(),
    ensures
        advances(spec_node(text, pos), text, pos),
    decreases remaining(text, pos), 2nat,
{
    let p = skip_ws(text, pos);
    lemma_run_is_maximal(text, pos, ByteClass::Space);
    if byte_is(text, p, QUOTE) {
        lemma_string_advances(text, p + 1, p + 1);
    } else if starts_with(text, p, ellipsis_marker()) {
    } else if byte_is(text, p, MINUS) {
        lemma_run_is_maximal(text, p + 1, ByteClass::Digit);
    } else if byte_is(text, p, AT_SIGN) {
        lemma_location_advances(text, p + 1);
    } else if run_len(text, p, ByteClass::Digit) > 0 {
        lemma_run_is_maximal(text, p, ByteClass::Digit);
    } else if byte_is(text, p, OPEN_PAREN) {
        lemma_node_seq_advances(text, p + 1, CLOSE_PAREN, tag_paren());
    } else if byte_is(text, p, OPEN_BRACKET) {
        lemma_node_seq_advances(text, p + 1, CLOSE_BRACKET, tag_bracket());
    } else if run_len(text, p, ByteClass::Ident) > 0 {
        let n = run_len(text, p, ByteClass::Ident);
        lemma_run_is_maximal(text, p, ByteClass::Ident);
        lemma_struct_stays_inside(text, p + n, text.subrange(p, p + n));
    }
}

/// A location form ends behind its `@`, inside the text.
pub proof fn lemma_location_advances(text: Seq<u8>, pos: int)
    requires
        0 <= pos <= text.len(),
    ensures
        advances(spec_location(text, pos), text, pos),
    decreases remaining(text, pos), 1nat,
{
    let n1 = run_len(text, pos, ByteClass::Digit);
    lemma_run_is_maximal(text, pos, ByteClass::Digit);
    if n1 > 0 && byte_is(text, pos + n1, MINUS) {
        let q = pos + n1 + 1;
        let n2 = run_len(text, q, ByteClass::Digit);
        lemma_run_is_maximal(text, q, ByteClass::Digit);
        let p3 = skip_ws(text, q + n2);
        lemma_run_is_maximal(text, q + n2, ByteClass::Space);
        if n2 > 0 && !at_terminator(text, p3) {
            lemma_node_advances(text, p3);
        }
    }
}

/// What follows the name of a struct value ends inside the text.
pub proof fn lemma_struct_stays_inside(text: Seq<u8>, pos: int, name: Seq<u8>)
    requires
        0 <= pos <= text.len(),
    ensures
        stays_inside(spec_struct(text, pos, name), text, pos),
    decreases remaining(text, pos), 1nat,
{
    let p1 = skip_ws(text, pos);
    lemma_run_is_maximal(text, pos, ByteClass::Space);
    if byte_is(text, p1, OPEN_ANGLE) {
        lemma_path_seq_advances(text, p1 + 1, CLOSE_ANGLE, tag_angle());
        match spec_path_seq(text, p1 + 1, CLOSE_ANGLE, tag_angle()) {
            Parsed::Done { value, next } => {
                lemma_run_is_maximal(text, next, ByteClass::Space);
                lemma_fields_stay_inside(text, skip_ws(text, next));
            },
            _ => {},
        }
    } else {
        lemma_fields_stay_inside(text, p1);
    }
}

/// The fields of a struct value end inside the text.
pub proof fn lemma_fields_stay_inside(text: Seq<u8>, pos: int)
    requires
        0 <= pos <= text.len(),
    ensures
        stays_inside(spec_fields(text, pos), text, pos),
    decreases remaining(text, pos), 0nat,
{
    if byte_is(text, pos, OPEN_PAREN) {
        lemma_node_seq_advances(text, pos + 1, CLOSE_PAREN, tag_paren());
    } else if byte_is(text, pos, OPEN_BRACE) {
        lemma_field_seq_advances(text, pos + 1, CLOSE_BRACE, tag_brace());
    }
}

/// A sequence of nodes ends behind its closing byte.
pub proof fn lemma_node_seq_advances(text: Seq<u8>, pos: int, end: u8, tag: Seq<char>)
    requires
        0 <= pos <= text.len(),
    ensures
        advances(spec_node_seq(text, pos, end, tag), text, pos),
    decreases remaining(text, pos), 4nat,
{
    let p = skip_ws(text, pos);
    lemma_run_is_maximal(text, pos, ByteClass::Space);
    if !byte_is(text, p, end) {
        lemma_node_items_advance(text, p, end, tag, Seq::empty());
    }
}

/// The elements of a sequence of nodes end behind `pos`.
pub proof fn lemma_node_items_advance(
    text: Seq<u8>,
    pos: int,
    end: u8,
    tag: Seq<char>,
    acc: Seq<Tree>,
)
    requires
        0 <= pos <= text.len(),
    ensures
        advances(spec_node_items(text, pos, end, tag, acc), text, pos),
    decreases remaining(text, pos), 3nat,
{
    lemma_node_advances(text, pos);
    match spec_node(text, pos) {
        Parsed::Done { value, next: behind } => {
            let p = skip_ws(text, behind);
            lemma_run_is_maximal(text, behind, ByteClass::Space);
            lemma_separator_advances(text, p, end);
            match spec_separator(text, p, end) {
                Separator::More { next } => {
                    lemma_node_items_advance(text, next, end, tag, acc.push(value));
                },
                _ => {},
            }
        },
        _ => {},
    }
}

/// A `name: node` pair takes at least one byte and ends inside the text.
pub proof fn lemma_field_advances(text: Seq<u8>, pos: int)
    requires
        0 <= pos <= text.len(),
    ensures
        advances(spec_field(text, pos), text, pos),
    decreases remaining(text, pos), 3nat,
{
    let n = run_len(text, pos, ByteClass::Ident);
    lemma_run_is_maximal(text, pos, ByteClass::Ident);
    if n > 0 && byte_is(text, pos + n, COLON) {
        lemma_node_advances(text, pos + n + 1);
    }
}

/// A sequence of `name: node` pairs ends behind its closing byte.
pub proof fn lemma_field_seq_advances(text: Seq<u8>, pos: int, end: u8, tag: Seq<char>)
    requires
        0 <= pos <= text.len(),
    ensures
        advances(spec_field_seq(text, pos, end, tag), text, pos),
    decreases remaining(text, pos), 5nat,
{
    let p = skip_ws(text, pos);
    lemma_run_is_maximal(text, pos, ByteClass::Space);
    if !byte_is(text, p, end) {
        lemma_field_items_advance(text, p, end, tag, Seq::empty());
    }
}

/// The elements of a sequence of `name: node` pairs end behind `pos`.
pub proof fn lemma_field_items_advance(
    text: Seq<u8>,
    pos: int,
    end: u8,
    tag: Seq<char>,
    acc: Seq<(Seq<u8>, Tree)>,
)
    requires
        0 <= pos <= text.len(),
    ensures
        advances(spec_field_items(text, pos, end, tag, acc), text, pos),
    decreases remaining(text, pos), 4nat,
{
    lemma_field_advances(text, pos);
    match spec_field(text, pos) {
        Parsed::Done { value, next: behind } => {
            let p = skip_ws(text, behind);
            lemma_run_is_maximal(text, behind, ByteClass::Space);
            lemma_separator_advances(text, p, end);
            match spec_separator(text, p, end) {
                Separator::More { next } => {
                    lemma_field_items_advance(text, next, end, tag, acc.push(value));
                },
                _ => {},
            }
        },
        _ => {},
    }
}

/// A sequence of path identifiers is the sequence of one list of names only.
pub proof fn lemma_paths_match_one(params: Seq<&str>, a: Seq<Seq<u8>>, b: Seq<Seq<u8>>)
    requires
        paths_match(params, a),
        paths_match(params, b),
    ensures
        a == b,
{
    assert forall|i: int| 0 <= i < a.len() implies a[i] == b[i] by {
        assert(params[i].spec_bytes() == a[i]);
    }
    assert(a =~= b);
}

/// A node represents one tree only: `represents` reads a node as a value.
pub proof fn lemma_node_represents_one(node: DebugNode<'_>, a: Tree, b: Tree)
    requires
        node.represents(a),
        node.represents(b),
    ensures
        a == b,
    decreases a, 0nat,
{
    match (node, a, b) {
        (DebugNode::Tuple(items), Tree::Tuple(x), Tree::Tuple(y)) => {
            lemma_nodes_represent_one(items@, x, y);
        },
        (DebugNode::List(items), Tree::List(x), Tree::List(y)) => {
            lemma_nodes_represent_one(items@, x, y);
        },
        (DebugNode::Struct(_, generics, fields), Tree::Struct(_, g1, f1), Tree::Struct(_, g2, f2)) => {
            match (generics, g1, g2) {
                (Some(g), Some(x), Some(y)) => {
                    lemma_paths_match_one(g.params@, x, y);
                },
                _ => {},
            }
            lemma_fields_represent_one(fields, f1, f2);
        },
        (DebugNode::Loc(_, _, child), Tree::Loc(_, _, x), Tree::Loc(_, _, y)) => {
            lemma_node_represents_one(*child, *x, *y);
        },
        _ => {},
    }
}

/// The fields of a struct value represent one tree only.
pub proof fn lemma_fields_represent_one(fields: Fields<'_>, a: FieldsTree, b: FieldsTree)
    requires
        fields.represents(a),
        fields.represents(b),
    ensures
        a == b,
    decreases a, 0nat,
{
    match (fields, a, b) {
        (Fields::Tuple(items), FieldsTree::Tuple(x), FieldsTree::Tuple(y)) => {
            lemma_nodes_represent_one(items@, x, y);
        },
        (Fields::Struct(items), FieldsTree::Struct(x), FieldsTree::Struct(y)) => {
            assert forall|i: int| 0 <= i < x.len() implies x[i] == y[i] by {
                assert(pair_represents(items@[i], x[i]));
                assert(pair_represents(items@[i], y[i]));
                lemma_node_represents_one(items@[i].1, x[i].1, y[i].1);
            }
            assert(x =~= y);
        },
        _ => {},
    }
}

/// A sequence of nodes represents one sequence of trees only.
pub proof fn lemma_nodes_represent_one(items: Seq<DebugNode<'_>>, a: Seq<Tree>, b: Seq<Tree>)
    requires
        nodes_represent(items, a),
        nodes_represent(items, b),
    ensures
        a == b,
    decreases a, 1nat,
{
    assert forall|i: int| 0 <= i < a.len() implies a[i] == b[i] by {
        assert(items[i].represents(a[i]));
        assert(items[i].represents(b[i]));
        lemma_node_represents_one(items[i], a[i], b[i]);
    }
    assert(a =~= b);
}

/// Two reads of a node from the same text at the same offset end alike:
/// both succeed or both fail, the cursor ends at the same offset, and two
/// errors have the same tag and the same offset.
pub proof fn lemma_read_is_determined(
    text: Seq<u8>,
    pos: int,
    first: Result<DebugNode<'_>, ParseError<&'static str>>,
    first_pos: int,
    second: Result<DebugNode<'_>, ParseError<&'static str>>,
    second_pos: int,
)
    requires
        node_read(first, first_pos, spec_node(text, pos)),
        node_read(second, second_pos, spec_node(text, pos)),
    ensures
        first is Ok <==> second is Ok,
        first_pos == second_pos,
        first matches Err(a) ==> second matches Err(b) && a.kind@ == b.kind@ && a.offset
            == b.offset,
{
}

} // verus!
