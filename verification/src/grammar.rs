//! The debug notation as a mathematical object: byte classes, the tree that a
//! text denotes, and the grammar as functions from a text and an offset to
//! either a value with the offset behind it, or an error tag with the offset
//! at which the violation shows.

use vstd::prelude::*;

verus! {

pub const QUOTE: u8 = 34;

pub const BACKSLASH: u8 = 92;

pub const MINUS: u8 = 45;

pub const AT_SIGN: u8 = 64;

pub const COMMA: u8 = 44;

pub const COLON: u8 = 58;

pub const UNDERSCORE: u8 = 95;

pub const OPEN_PAREN: u8 = 40;

pub const CLOSE_PAREN: u8 = 41;

pub const OPEN_BRACKET: u8 = 91;

pub const CLOSE_BRACKET: u8 = 93;

pub const OPEN_BRACE: u8 = 123;

pub const CLOSE_BRACE: u8 = 125;

pub const OPEN_ANGLE: u8 = 60;

pub const CLOSE_ANGLE: u8 = 62;

/// ASCII digit.
pub open spec fn is_digit(b: u8) -> bool {
    48 <= b <= 57
}

/// ASCII letter, digit or underscore.
pub open spec fn is_ident_byte(b: u8) -> bool {
    is_digit(b) || 65 <= b <= 90 || 97 <= b <= 122 || b == UNDERSCORE
}

/// An identifier byte or a colon, so that `a::b::C` is one token.
pub open spec fn is_path_byte(b: u8) -> bool {
    is_ident_byte(b) || b == COLON
}

/// Space, tab, line feed, form feed or carriage return.
pub open spec fn is_space(b: u8) -> bool {
    b == 32 || b == 9 || b == 10 || b == 12 || b == 13
}

/// The sets of bytes that the lexical runs are made of.
#[derive(Clone, Copy, Debug, PartialEq, Eq)]
pub enum ByteClass {
    Ident,
    Path,
    Digit,
    Space,
}

impl ByteClass {
    pub open spec fn has(self, b: u8) -> bool {
        match self {
            ByteClass::Ident => is_ident_byte(b),
            ByteClass::Path => is_path_byte(b),
            ByteClass::Digit => is_digit(b),
            ByteClass::Space => is_space(b),
        }
    }

    /// Membership test.
    pub fn contains(self, b: u8) -> (r: bool)
        ensures
            r == self.has(b),
    {
        let digit = 48 <= b && b <= 57;
        let word = digit || (65 <= b && b <= 90) || (97 <= b && b <= 122) || b == UNDERSCORE;
        match self {
            ByteClass::Ident => word,
            ByteClass::Path => word || b == COLON,
            ByteClass::Digit => digit,
            ByteClass::Space => b == 32 || b == 9 || b == 10 || b == 12 || b == 13,
        }
    }
}

/// Length of the longest run of bytes of `class` that starts at `pos`.
pub open spec fn run_len(text: Seq<u8>, pos: int, class: ByteClass) -> nat
    decreases text.len() - pos,
{
    if 0 <= pos < text.len() && class.has(text[pos]) {
        1 + run_len(text, pos + 1, class)
    } else {
        0
    }
}

/// A run lies inside the text, is made of bytes of its class only, and
/// cannot be made longer.
pub proof fn lemma_run_is_maximal(text: Seq<u8>, pos: int, class: ByteClass)
    requires
        0 <= pos <= text.len(),
    ensures
        pos + run_len(text, pos, class) <= text.len(),
        forall|i: int| pos <= i < pos + run_len(text, pos, class) ==> class.has(#[trigger] text[i]),
        pos + run_len(text, pos, class) < text.len() ==> !class.has(
            text[pos + run_len(text, pos, class)],
        ),
    decreases text.len() - pos,
{
    if pos < text.len() && class.has(text[pos]) {
        lemma_run_is_maximal(text, pos + 1, class);
    }
}

/// Number of bytes from `pos` to the end of the text.
pub open spec fn remaining(text: Seq<u8>, pos: int) -> nat {
    if pos <= text.len() {
        (text.len() - pos) as nat
    } else {
        0
    }
}

/// The byte at `pos` exists and is `b`.
pub open spec fn byte_is(text: Seq<u8>, pos: int, b: u8) -> bool {
    0 <= pos < text.len() && text[pos] == b
}

/// `pat` stands in `text` at `pos`.
pub open spec fn starts_with(text: Seq<u8>, pos: int, pat: Seq<u8>) -> bool {
    0 <= pos && pos + pat.len() <= text.len() && text.subrange(pos, pos + pat.len()) == pat
}

/// The offset behind the whitespace that starts at `pos`.
pub open spec fn skip_ws(text: Seq<u8>, pos: int) -> int {
    pos + run_len(text, pos, ByteClass::Space)
}

/// The run of `class` at `pos` as a token, if it is not empty.
pub open spec fn token(text: Seq<u8>, pos: int, class: ByteClass) -> Option<Seq<u8>> {
    let n = run_len(text, pos, class);
    if n > 0 {
        Some(text.subrange(pos, pos + n))
    } else {
        None
    }
}

/// The input ends at `pos`, or the byte there closes or continues a sequence.
pub open spec fn at_terminator(text: Seq<u8>, pos: int) -> bool {
    pos >= text.len() || byte_is(text, pos, COMMA) || byte_is(text, pos, CLOSE_PAREN) || byte_is(
        text,
        pos,
        CLOSE_BRACKET,
    ) || byte_is(text, pos, CLOSE_BRACE)
}

/// The elision marker: the characters U+00E2, U+20AC and U+00A6 in
/// UTF-8, seven bytes.
pub open spec fn ellipsis_marker() -> Seq<u8> {
    seq![195u8, 162u8, 226u8, 130u8, 172u8, 194u8, 166u8]
}

/// The number that a run of decimal digits denotes.
pub open spec fn decimal_value(digits: Seq<u8>) -> nat
    decreases digits.len(),
{
    if digits.len() == 0 {
        0
    } else {
        decimal_value(digits.drop_last()) * 10 + (digits.last() - 48) as nat
    }
}

/// Every byte is a decimal digit.
pub open spec fn all_digits(digits: Seq<u8>) -> bool {
    forall|i: int| 0 <= i < digits.len() ==> is_digit(#[trigger] digits[i])
}

/// What a text denotes.
pub enum Tree {
    Ellipsis,
    Int(Seq<u8>),
    Str(Seq<u8>),
    Tuple(Seq<Tree>),
    List(Seq<Tree>),
    Struct(Seq<u8>, Option<Seq<Seq<u8>>>, FieldsTree),
    Region(nat, nat),
    Position(nat),
    Loc(nat, nat, Box<Tree>),
}

/// The payload of a struct value.
pub enum FieldsTree {
    Unit,
    Tuple(Seq<Tree>),
    Struct(Seq<(Seq<u8>, Tree)>),
}

/// Outcome of reading one construct at an offset.
pub enum Parsed<T> {
    /// The construct was read; `next` is the offset behind it.
    Done { value: T, next: int },
    /// The text breaks the grammar at `at`.
    Failed { tag: Seq<char>, at: int },
}

pub open spec fn tag_unterminated_escape() -> Seq<char> {
    "Unterminated string escape"@
}

pub open spec fn tag_unterminated_string() -> Seq<char> {
    "Unterminated string literal"@
}

pub open spec fn tag_expected_integer() -> Seq<char> {
    "Expected integer"@
}

pub open spec fn tag_expected_identifier() -> Seq<char> {
    "Expected identifier"@
}

pub open spec fn tag_expected_colon() -> Seq<char> {
    "Expected ':'"@
}

pub open spec fn tag_paren() -> Seq<char> {
    "Expected ',' or ')'"@
}

pub open spec fn tag_bracket() -> Seq<char> {
    "Expected ',' or ']'"@
}

pub open spec fn tag_angle() -> Seq<char> {
    "Expected ',' or '>'"@
}

pub open spec fn tag_brace() -> Seq<char> {
    "Expected ',' or '}'"@
}

pub open spec fn tag_expected_node() -> Seq<char> {
    "Expected string, integer, tuple, tuple struct, or struct"@
}

pub open spec fn tag_out_of_range() -> Seq<char> {
    "Integer out of range"@
}

/// What follows an element of a delimited sequence.
pub enum Separator {
    /// The closing byte, directly or behind one comma; `next` is behind it.
    Close { next: int },
    /// A comma with another element behind it, which starts at `next`.
    More { next: int },
    /// Neither a comma nor the closing byte.
    Bad { at: int },
}

/// Reads the separator at `pos`, where the whitespace behind an element ends.
pub open spec fn spec_separator(text: Seq<u8>, pos: int, end: u8) -> Separator {
    if byte_is(text, pos, COMMA) {
        let q = skip_ws(text, pos + 1);
        if byte_is(text, q, end) {
            Separator::Close { next: q + 1 }
        } else {
            Separator::More { next: q }
        }
    } else if byte_is(text, pos, end) {
        Separator::Close { next: pos + 1 }
    } else {
        Separator::Bad { at: pos }
    }
}

/// The body of a string literal: `start` is the offset behind the opening
/// quote, `pos` the offset that the scan has reached.
pub open spec fn spec_string_body(text: Seq<u8>, start: int, pos: int) -> Parsed<Seq<u8>>
    decreases remaining(text, pos),
{
    if !(0 <= pos < text.len()) {
        Parsed::Failed { tag: tag_unterminated_string(), at: pos }
    } else if text[pos] == BACKSLASH {
        if pos + 1 < text.len() {
            if text[pos + 1] == QUOTE || text[pos + 1] == BACKSLASH {
                spec_string_body(text, start, pos + 2)
            } else {
                spec_string_body(text, start, pos + 1)
            }
        } else {
            Parsed::Failed { tag: tag_unterminated_escape(), at: pos }
        }
    } else if text[pos] == QUOTE {
        Parsed::Done { value: text.subrange(start, pos), next: pos + 1 }
    } else {
        spec_string_body(text, start, pos + 1)
    }
}

/// The elements of a sequence of path identifiers, from the first element
/// on; `acc` holds the elements read so far.
pub open spec fn spec_path_items(text: Seq<u8>, pos: int, end: u8, tag: Seq<char>, acc: Seq<Seq<u8>>)
    -> Parsed<Seq<Seq<u8>>>
    decreases remaining(text, pos),
{
    let n = run_len(text, pos, ByteClass::Path);
    if n == 0 {
        Parsed::Failed { tag: tag_expected_identifier(), at: pos }
    } else {
        let items = acc.push(text.subrange(pos, pos + n));
        match spec_separator(text, skip_ws(text, pos + n), end) {
            Separator::Close { next } => Parsed::Done { value: items, next },
            Separator::More { next } => spec_path_items(text, next, end, tag, items),
            Separator::Bad { at } => Parsed::Failed { tag, at },
        }
    }
}

/// A sequence of path identifiers; `pos` is the offset behind the opening byte.
pub open spec fn spec_path_seq(text: Seq<u8>, pos: int, end: u8, tag: Seq<char>) -> Parsed<
    Seq<Seq<u8>>,
> {
    let p = skip_ws(text, pos);
    if byte_is(text, p, end) {
        Parsed::Done { value: Seq::empty(), next: p + 1 }
    } else {
        spec_path_items(text, p, end, tag, Seq::empty())
    }
}

/// One node, with the whitespace before it.
pub open spec fn spec_node(text: Seq<u8>, pos: int) -> Parsed<Tree>
    decreases remaining(text, pos), 2nat,
{
    let p = skip_ws(text, pos);
    if byte_is(text, p, QUOTE) {
        match spec_string_body(text, p + 1, p + 1) {
            Parsed::Done { value, next } => Parsed::Done { value: Tree::Str(value), next },
            Parsed::Failed { tag, at } => Parsed::Failed { tag, at },
        }
    } else if starts_with(text, p, ellipsis_marker()) {
        Parsed::Done { value: Tree::Ellipsis, next: p + ellipsis_marker().len() }
    } else if byte_is(text, p, MINUS) {
        let n = run_len(text, p + 1, ByteClass::Digit);
        if n > 0 {
            Parsed::Done { value: Tree::Int(text.subrange(p, p + 1 + n)), next: p + 1 + n }
        } else {
            Parsed::Failed { tag: tag_expected_integer(), at: p + 1 }
        }
    } else if byte_is(text, p, AT_SIGN) {
        spec_location(text, p + 1)
    } else if run_len(text, p, ByteClass::Digit) > 0 {
        let n = run_len(text, p, ByteClass::Digit);
        Parsed::Done { value: Tree::Int(text.subrange(p, p + n)), next: p + n }
    } else if byte_is(text, p, OPEN_PAREN) {
        match spec_node_seq(text, p + 1, CLOSE_PAREN, tag_paren()) {
            Parsed::Done { value, next } => Parsed::Done { value: Tree::Tuple(value), next },
            Parsed::Failed { tag, at } => Parsed::Failed { tag, at },
        }
    } else if byte_is(text, p, OPEN_BRACKET) {
        match spec_node_seq(text, p + 1, CLOSE_BRACKET, tag_bracket()) {
            Parsed::Done { value, next } => Parsed::Done { value: Tree::List(value), next },
            Parsed::Failed { tag, at } => Parsed::Failed { tag, at },
        }
    } else if run_len(text, p, ByteClass::Ident) > 0 {
        let n = run_len(text, p, ByteClass::Ident);
        spec_struct(text, p + n, text.subrange(p, p + n))
    } else {
        Parsed::Failed { tag: tag_expected_node(), at: p }
    }
}

/// A location form; `pos` is the offset behind the `@`.
pub open spec fn spec_location(text: Seq<u8>, pos: int) -> Parsed<Tree>
    decreases remaining(text, pos), 1nat,
{
    let n1 = run_len(text, pos, ByteClass::Digit);
    let first = text.subrange(pos, pos + n1);
    if n1 == 0 {
        Parsed::Failed { tag: tag_expected_integer(), at: pos }
    } else if byte_is(text, pos + n1, MINUS) {
        let q = pos + n1 + 1;
        let n2 = run_len(text, q, ByteClass::Digit);
        let second = text.subrange(q, q + n2);
        let p3 = skip_ws(text, q + n2);
        if n2 == 0 {
            Parsed::Failed { tag: tag_expected_integer(), at: q }
        } else if at_terminator(text, p3) {
            spec_region(first, second, None, p3)
        } else {
            match spec_node(text, p3) {
                Parsed::Done { value, next } => spec_region(first, second, Some(value), next),
                Parsed::Failed { tag, at } => Parsed::Failed { tag, at },
            }
        }
    } else if decimal_value(first) <= usize::MAX {
        Parsed::Done { value: Tree::Position(decimal_value(first)), next: pos + n1 }
    } else {
        Parsed::Failed { tag: tag_out_of_range(), at: pos + n1 }
    }
}

/// The node of a range `first`-`second`, bare or round `child`, once the
/// text of the form has been read up to `next`. A bound that no `usize`
/// holds is an error at `next`.
pub open spec fn spec_region(first: Seq<u8>, second: Seq<u8>, child: Option<Tree>, next: int)
    -> Parsed<Tree> {
    let start = decimal_value(first);
    let end = decimal_value(second);
    if start <= usize::MAX && end <= usize::MAX {
        match child {
            None => Parsed::Done { value: Tree::Region(start, end), next },
            Some(node) => Parsed::Done { value: Tree::Loc(start, end, Box::new(node)), next },
        }
    } else {
        Parsed::Failed { tag: tag_out_of_range(), at: next }
    }
}

/// A struct value behind its name; `pos` is the offset behind `name`.
/// Generics end behind their `>`, so the test that they ended behind their
/// `<` never fails inside a text; it is there for the recursion to be well
/// founded.
pub open spec fn spec_struct(text: Seq<u8>, pos: int, name: Seq<u8>) -> Parsed<Tree>
    decreases remaining(text, pos), 1nat,
{
    let p1 = skip_ws(text, pos);
    if byte_is(text, p1, OPEN_ANGLE) {
        match spec_path_seq(text, p1 + 1, CLOSE_ANGLE, tag_angle()) {
            Parsed::Done { value: params, next } => {
                if next > p1 {
                    match spec_fields(text, skip_ws(text, next)) {
                        Parsed::Done { value, next } => Parsed::Done {
                            value: Tree::Struct(name, Some(params), value),
                            next,
                        },
                        Parsed::Failed { tag, at } => Parsed::Failed { tag, at },
                    }
                } else {
                    Parsed::Failed { tag: tag_angle(), at: p1 }
                }
            },
            Parsed::Failed { tag, at } => Parsed::Failed { tag, at },
        }
    } else {
        match spec_fields(text, p1) {
            Parsed::Done { value, next } => Parsed::Done {
                value: Tree::Struct(name, None, value),
                next,
            },
            Parsed::Failed { tag, at } => Parsed::Failed { tag, at },
        }
    }
}

/// The fields of a struct value, which start at `pos` if there are any.
pub open spec fn spec_fields(text: Seq<u8>, pos: int) -> Parsed<FieldsTree>
    decreases remaining(text, pos), 0nat,
{
    if byte_is(text, pos, OPEN_PAREN) {
        match spec_node_seq(text, pos + 1, CLOSE_PAREN, tag_paren()) {
            Parsed::Done { value, next } => Parsed::Done { value: FieldsTree::Tuple(value), next },
            Parsed::Failed { tag, at } => Parsed::Failed { tag, at },
        }
    } else if byte_is(text, pos, OPEN_BRACE) {
        match spec_field_seq(text, pos + 1, CLOSE_BRACE, tag_brace()) {
            Parsed::Done { value, next } => Parsed::Done { value: FieldsTree::Struct(value), next },
            Parsed::Failed { tag, at } => Parsed::Failed { tag, at },
        }
    } else {
        Parsed::Done { value: FieldsTree::Unit, next: pos }
    }
}

/// A sequence of nodes; `pos` is the offset behind the opening byte.
pub open spec fn spec_node_seq(text: Seq<u8>, pos: int, end: u8, tag: Seq<char>) -> Parsed<
    Seq<Tree>,
>
    decreases remaining(text, pos), 4nat,
{
    let p = skip_ws(text, pos);
    if byte_is(text, p, end) {
        Parsed::Done { value: Seq::empty(), next: p + 1 }
    } else {
        spec_node_items(text, p, end, tag, Seq::empty())
    }
}

/// The elements of a sequence of nodes, from an element's first byte on;
/// `acc` holds the elements read so far. A node takes at least one byte, so
/// the test that the element ended behind `pos` never fails inside a text;
/// it is there for the recursion to be well founded.
pub open spec fn spec_node_items(text: Seq<u8>, pos: int, end: u8, tag: Seq<char>, acc: Seq<Tree>)
    -> Parsed<Seq<Tree>>
    decreases remaining(text, pos), 3nat,
{
    match spec_node(text, pos) {
        Parsed::Failed { tag: inner, at } => Parsed::Failed { tag: inner, at },
        Parsed::Done { value, next: behind } => {
            let items = acc.push(value);
            match spec_separator(text, skip_ws(text, behind), end) {
                Separator::Close { next } => Parsed::Done { value: items, next },
                Separator::More { next } => {
                    if behind > pos {
                        spec_node_items(text, next, end, tag, items)
                    } else {
                        Parsed::Failed { tag, at: next }
                    }
                },
                Separator::Bad { at } => Parsed::Failed { tag, at },
            }
        },
    }
}

/// One `name: node` pair; `pos` is the offset of the name's first byte.
pub open spec fn spec_field(text: Seq<u8>, pos: int) -> Parsed<(Seq<u8>, Tree)>
    decreases remaining(text, pos), 3nat,
{
    let n = run_len(text, pos, ByteClass::Ident);
    if n == 0 {
        Parsed::Failed { tag: tag_expected_identifier(), at: pos }
    } else if !byte_is(text, pos + n, COLON) {
        Parsed::Failed { tag: tag_expected_colon(), at: pos + n }
    } else {
        match spec_node(text, pos + n + 1) {
            Parsed::Done { value, next } => Parsed::Done {
                value: (text.subrange(pos, pos + n), value),
                next,
            },
            Parsed::Failed { tag, at } => Parsed::Failed { tag, at },
        }
    }
}

/// A sequence of `name: node` pairs; `pos` is the offset behind the opening byte.
pub open spec fn spec_field_seq(text: Seq<u8>, pos: int, end: u8, tag: Seq<char>) -> Parsed<
    Seq<(Seq<u8>, Tree)>,
>
    decreases remaining(text, pos), 5nat,
{
    let p = skip_ws(text, pos);
    if byte_is(text, p, end) {
        Parsed::Done { value: Seq::empty(), next: p + 1 }
    } else {
        spec_field_items(text, p, end, tag, Seq::empty())
    }
}

/// The elements of a sequence of `name: node` pairs, from an element's first
/// byte on; `acc` holds the pairs read so far. A pair takes at least one
/// byte, so the test that the element ended behind `pos` never fails inside
/// a text; it is there for the recursion to be well founded.
pub open spec fn spec_field_items(
    text: Seq<u8>,
    pos: int,
    end: u8,
    tag: Seq<char>,
    acc: Seq<(Seq<u8>, Tree)>,
) -> Parsed<Seq<(Seq<u8>, Tree)>>
    decreases remaining(text, pos), 4nat,
{
    match spec_field(text, pos) {
        Parsed::Failed { tag: inner, at } => Parsed::Failed { tag: inner, at },
        Parsed::Done { value, next: behind } => {
            let items = acc.push(value);
            match spec_separator(text, skip_ws(text, behind), end) {
                Separator::Close { next } => Parsed::Done { value: items, next },
                Separator::More { next } => {
                    if behind > pos {
                        spec_field_items(text, next, end, tag, items)
                    } else {
                        Parsed::Failed { tag, at: next }
                    }
                },
                Separator::Bad { at } => Parsed::Failed { tag, at },
            }
        },
    }
}

} // verus!
