//! The grammar of nodes: delimited sequences and `parse_debug_node`. Each
//! function reads what its counterpart in `grammar` describes, and on an
//! error leaves the cursor at the offset that the error names.

use crate::arena::{
    alloc_in, field_items, field_slice, new_field_vec, new_node_vec, new_path_vec, node_items,
    node_slice, path_items, path_slice, push_field, push_node, push_path, FieldVec, NodeVec,
    PathVec,
};
use crate::cursor::{ParseError, Parser};
use crate::grammar::{
    byte_is, decimal_value, ellipsis_marker, lemma_run_is_maximal, remaining, run_len, spec_field,
    spec_field_items, spec_field_seq, spec_fields, spec_location, spec_node, spec_node_items,
    spec_node_seq, spec_path_items, spec_path_seq, spec_separator, spec_struct, tag_out_of_range,
    ByteClass, Parsed, Separator, Tree, AT_SIGN, CLOSE_ANGLE, CLOSE_BRACE, CLOSE_BRACKET,
    CLOSE_PAREN, COLON, COMMA, MINUS, OPEN_ANGLE, OPEN_BRACE, OPEN_BRACKET, OPEN_PAREN, QUOTE,
};
use crate::node::{
    nodes_represent, pair_represents, pairs_represent, paths_match, DebugNode, Fields, Generics,
};
use crate::number::{decimal_number, decimal_usize, parse_decimal};
use bumpalo::Bump;
use vstd::prelude::*;
use vstd::string::StringSliceAdditionalSpecFns;

verus! {

/// `r` is the error `tag` at `at`, and the cursor `pos` stands there.
pub open spec fn fails_with<T>(
    r: Result<T, ParseError<&'static str>>,
    pos: int,
    tag: Seq<char>,
    at: int,
) -> bool {
    r matches Err(e) && e.kind@ == tag && e.offset == at && pos == at
}

/// `r` and the cursor `pos` are what the grammar gives as `expected`.
pub open spec fn node_read(
    r: Result<DebugNode<'_>, ParseError<&'static str>>,
    pos: int,
    expected: Parsed<Tree>,
) -> bool {
    match expected {
        Parsed::Done { value, next } => r matches Ok(n) && n.represents(value) && pos == next,
        Parsed::Failed { tag, at } => fails_with(r, pos, tag, at),
    }
}

/// `r` and the cursor `pos` are what the grammar gives as `expected` for a
/// sequence of path identifiers whose opening byte was found.
pub open spec fn paths_read(
    r: Result<Option<PathVec<'_>>, ParseError<&'static str>>,
    pos: int,
    expected: Parsed<Seq<Seq<u8>>>,
) -> bool {
    match expected {
        Parsed::Done { value, next } => r matches Ok(Some(v)) && paths_match(path_items(v), value)
            && pos == next,
        Parsed::Failed { tag, at } => fails_with(r, pos, tag, at),
    }
}

/// `r` and the cursor `pos` are what the grammar gives as `expected` for a
/// sequence of nodes whose opening byte was found.
pub open spec fn nodes_read(
    r: Result<Option<NodeVec<'_>>, ParseError<&'static str>>,
    pos: int,
    expected: Parsed<Seq<Tree>>,
) -> bool {
    match expected {
        Parsed::Done { value, next } => r matches Ok(Some(v)) && nodes_represent(
            node_items(v),
            value,
        ) && pos == next,
        Parsed::Failed { tag, at } => fails_with(r, pos, tag, at),
    }
}

/// `r` and the cursor `pos` are what the grammar gives as `expected` for a
/// sequence of `name: node` pairs whose opening byte was found.
pub open spec fn pairs_read(
    r: Result<Option<FieldVec<'_>>, ParseError<&'static str>>,
    pos: int,
    expected: Parsed<Seq<(Seq<u8>, Tree)>>,
) -> bool {
    match expected {
        Parsed::Done { value, next } => r matches Ok(Some(v)) && pairs_represent(
            field_items(v),
            value,
        ) && pos == next,
        Parsed::Failed { tag, at } => fails_with(r, pos, tag, at),
    }
}

/// A run of digits that is not empty denotes a number.
pub proof fn lemma_digits_denote(text: Seq<u8>, pos: int)
    requires
        0 <= pos <= text.len(),
        run_len(text, pos, ByteClass::Digit) > 0,
    ensures
        decimal_number(text.subrange(pos, pos + run_len(text, pos, ByteClass::Digit))) == Some(
            decimal_value(text.subrange(pos, pos + run_len(text, pos, ByteClass::Digit))),
        ),
{
    lemma_run_is_maximal(text, pos, ByteClass::Digit);
    let run = text.subrange(pos, pos + run_len(text, pos, ByteClass::Digit));
    assert forall|i: int| 0 <= i < run.len() implies ByteClass::Digit.has(#[trigger] run[i]) by {
        assert(run[i] == text[pos + i]);
    }
}

/// Builds the node of a range from the digits of its bounds: a `Region`
/// without `child`, a `Loc` round it. Where a bound is no decimal number or
/// more than a `usize` holds, the result is the error `Integer out of range`
/// at `at`.
pub fn region_node<'a>(
    bump: &'a Bump,
    first: &str,
    second: &str,
    child: Option<DebugNode<'a>>,
    at: usize,
) -> (r: Result<DebugNode<'a>, ParseError<&'static str>>)
    ensures
        match (decimal_usize(first.spec_bytes()), decimal_usize(second.spec_bytes())) {
            (Some(start), Some(end)) => r matches Ok(n) && match child {
                None => n == DebugNode::Region(start, end),
                Some(node) => n matches DebugNode::Loc(a, b, inner) && a == start && b == end
                    && *inner == node,
            },
            _ => r matches Err(e) && e.kind@ == tag_out_of_range() && e.offset == at,
        },
{
    match (parse_decimal(first.as_bytes()), parse_decimal(second.as_bytes())) {
        (Some(start), Some(end)) => match child {
            None => Ok(DebugNode::Region(start, end)),
            Some(node) => Ok(DebugNode::Loc(start, end, alloc_in(bump, node))),
        },
        _ => Err(ParseError { kind: "Integer out of range", offset: at }),
    }
}

impl<'a> Parser<'a> {
    /// Reads what follows an element of a sequence that `end` closes: the
    /// result says whether another element follows.
    fn seq_separator(&mut self, end: u8, err: &'static str) -> (r: Result<
        bool,
        ParseError<&'static str>,
    >)
        requires
            old(self).wf(),
        ensures
            final(self).follows(*old(self)),
            match spec_separator(old(self).text(), old(self).pos(), end) {
                Separator::Close { next } => r matches Ok(more) && !more && final(self).pos()
                    == next,
                Separator::More { next } => r matches Ok(more) && more && final(self).pos() == next,
                Separator::Bad { at } => fails_with(r, final(self).pos(), err@, at),
            },
    {
        if self.check_u8(COMMA) {
            self.consume_ws();
            if self.check_u8(end) {
                Ok(false)
            } else {
                Ok(true)
            }
        } else if self.check_u8(end) {
            Ok(false)
        } else {
            Err(ParseError { kind: err, offset: self.current_offset() })
        }
    }

    /// Reads a sequence of path identifiers between `begin` and `end`:
    /// elements with commas between them, one more comma allowed before
    /// `end`. The result is `None`, and the cursor stays, where `begin` does
    /// not stand at the cursor. A byte that is neither a comma nor `end`
    /// behind an element is the error `err`.
    pub fn check_path_seq(&mut self, begin: u8, end: u8, err: &'static str) -> (r: Result<
        Option<PathVec<'a>>,
        ParseError<&'static str>,
    >)
        requires
            old(self).wf(),
        ensures
            final(self).follows(*old(self)),
            if byte_is(old(self).text(), old(self).pos(), begin) {
                &&& final(self).pos() > old(self).pos()
                &&& paths_read(
                    r,
                    final(self).pos(),
                    spec_path_seq(old(self).text(), old(self).pos() + 1, end, err@),
                )
            } else {
                r matches Ok(None) && final(self).pos() == old(self).pos()
            },
    {
        if !self.check_u8(begin) {
            return Ok(None);
        }
        let mut elements = new_path_vec(self.bump());
        self.consume_ws();
        if self.check_u8(end) {
            return Ok(Some(elements));
        }
        let ghost mut names = Seq::<Seq<u8>>::empty();
        loop
            invariant
                self.follows(*old(self)),
                self.pos() > old(self).pos(),
                byte_is(old(self).text(), old(self).pos(), begin),
                paths_match(path_items(elements), names),
                spec_path_items(self.text(), self.pos(), end, err@, names) == spec_path_seq(
                    self.text(),
                    old(self).pos() + 1,
                    end,
                    err@,
                ),
            decreases remaining(self.text(), self.pos()),
        {
            let ghost before = self.pos();
            let item = match self.expect_path_ident("Expected identifier") {
                Ok(item) => item,
                Err(e) => {
                    return Err(e);
                },
            };
            push_path(&mut elements, item);
            proof {
                names = names.push(item.spec_bytes());
                lemma_run_is_maximal(self.text(), before, ByteClass::Path);
            }
            self.consume_ws();
            match self.seq_separator(end, err) {
                Ok(more) => {
                    if !more {
                        return Ok(Some(elements));
                    }
                },
                Err(e) => {
                    return Err(e);
                },
            }
        }
    }

    /// Reads a sequence of nodes between `begin` and `end`: elements with
    /// commas between them, one more comma allowed before `end`. The result
    /// is `None`, and the cursor stays, where `begin` does not stand at the
    /// cursor. The error of an element is handed on as it is; a byte that is
    /// neither a comma nor `end` behind an element is the error `err`.
    pub fn check_delimited_seq(&mut self, begin: u8, end: u8, err: &'static str) -> (r: Result<
        Option<NodeVec<'a>>,
        ParseError<&'static str>,
    >)
        requires
            old(self).wf(),
        ensures
            final(self).follows(*old(self)),
            if byte_is(old(self).text(), old(self).pos(), begin) {
                &&& final(self).pos() > old(self).pos()
                &&& nodes_read(
                    r,
                    final(self).pos(),
                    spec_node_seq(old(self).text(), old(self).pos() + 1, end, err@),
                )
            } else {
                r matches Ok(None) && final(self).pos() == old(self).pos()
            },
        decreases remaining(old(self).text(), old(self).pos()), 1nat,
    {
        if !self.check_u8(begin) {
            return Ok(None);
        }
        let mut elements = new_node_vec(self.bump());
        self.consume_ws();
        if self.check_u8(end) {
            return Ok(Some(elements));
        }
        let ghost mut trees = Seq::<Tree>::empty();
        loop
            invariant
                self.follows(*old(self)),
                self.pos() > old(self).pos(),
                byte_is(old(self).text(), old(self).pos(), begin),
                nodes_represent(node_items(elements), trees),
                spec_node_items(self.text(), self.pos(), end, err@, trees) == spec_node_seq(
                    self.text(),
                    old(self).pos() + 1,
                    end,
                    err@,
                ),
            decreases remaining(self.text(), self.pos()),
        {
            let ghost before = self.pos();
            let node = match self.parse_debug_node() {
                Ok(node) => node,
                Err(e) => {
                    return Err(e);
                },
            };
            push_node(&mut elements, node);
            proof {
                trees = trees.push(spec_node(self.text(), before)->value);
            }
            self.consume_ws();
            match self.seq_separator(end, err) {
                Ok(more) => {
                    if !more {
                        return Ok(Some(elements));
                    }
                },
                Err(e) => {
                    return Err(e);
                },
            }
        }
    }

    /// Reads one `name: node` pair.
    fn parse_field(&mut self) -> (r: Result<(&'a str, DebugNode<'a>), ParseError<&'static str>>)
        requires
            old(self).wf(),
        ensures
            final(self).follows(*old(self)),
            match spec_field(old(self).text(), old(self).pos()) {
                Parsed::Done { value, next } => r matches Ok(pair) && pair_represents(pair, value)
                    && final(self).pos() == next && next > old(self).pos(),
                Parsed::Failed { tag, at } => fails_with(r, final(self).pos(), tag, at),
            },
        decreases remaining(old(self).text(), old(self).pos()), 4nat,
    {
        let key = match self.expect_ident("Expected identifier") {
            Ok(key) => key,
            Err(e) => {
                return Err(e);
            },
        };
        match self.expect_u8(COLON, "Expected ':'") {
            Ok(_) => {},
            Err(e) => {
                return Err(e);
            },
        }
        match self.parse_debug_node() {
            Ok(value) => Ok((key, value)),
            Err(e) => Err(e),
        }
    }

    /// Reads a sequence of `name: node` pairs between `begin` and `end`:
    /// elements with commas between them, one more comma allowed before
    /// `end`. The result is `None`, and the cursor stays, where `begin` does
    /// not stand at the cursor. The error of an element is handed on as it
    /// is; a byte that is neither a comma nor `end` behind an element is the
    /// error `err`.
    pub fn check_field_seq(&mut self, begin: u8, end: u8, err: &'static str) -> (r: Result<
        Option<FieldVec<'a>>,
        ParseError<&'static str>,
    >)
        requires
            old(self).wf(),
        ensures
            final(self).follows(*old(self)),
            if byte_is(old(self).text(), old(self).pos(), begin) {
                &&& final(self).pos() > old(self).pos()
                &&& pairs_read(
                    r,
                    final(self).pos(),
                    spec_field_seq(old(self).text(), old(self).pos() + 1, end, err@),
                )
            } else {
                r matches Ok(None) && final(self).pos() == old(self).pos()
            },
        decreases remaining(old(self).text(), old(self).pos()), 1nat,
    {
        if !self.check_u8(begin) {
            return Ok(None);
        }
        let mut elements = new_field_vec(self.bump());
        self.consume_ws();
        if self.check_u8(end) {
            return Ok(Some(elements));
        }
        let ghost mut trees = Seq::<(Seq<u8>, Tree)>::empty();
        loop
            invariant
                self.follows(*old(self)),
                self.pos() > old(self).pos(),
                byte_is(old(self).text(), old(self).pos(), begin),
                pairs_represent(field_items(elements), trees),
                spec_field_items(self.text(), self.pos(), end, err@, trees) == spec_field_seq(
                    self.text(),
                    old(self).pos() + 1,
                    end,
                    err@,
                ),
            decreases remaining(self.text(), self.pos()),
        {
            let ghost before = self.pos();
            let pair = match self.parse_field() {
                Ok(pair) => pair,
                Err(e) => {
                    return Err(e);
                },
            };
            push_field(&mut elements, pair);
            proof {
                trees = trees.push(spec_field(self.text(), before)->value);
            }
            self.consume_ws();
            match self.seq_separator(end, err) {
                Ok(more) => {
                    if !more {
                        return Ok(Some(elements));
                    }
                },
                Err(e) => {
                    return Err(e);
                },
            }
        }
    }

    /// Reads a location form behind its `@`.
    fn parse_location(&mut self) -> (r: Result<DebugNode<'a>, ParseError<&'static str>>)
        requires
            old(self).wf(),
        ensures
            final(self).follows(*old(self)),
            node_read(r, final(self).pos(), spec_location(old(self).text(), old(self).pos())),
        decreases remaining(old(self).text(), old(self).pos()), 1nat,
    {
        let ghost at_first = self.pos();
        let first = match self.expect_int("Expected integer") {
            Ok(digits) => digits,
            Err(e) => {
                return Err(e);
            },
        };
        proof {
            lemma_digits_denote(self.text(), at_first);
        }
        if self.check_u8(MINUS) {
            let ghost at_second = self.pos();
            let second = match self.expect_int("Expected integer") {
                Ok(digits) => digits,
                Err(e) => {
                    return Err(e);
                },
            };
            proof {
                lemma_digits_denote(self.text(), at_second);
            }
            self.consume_ws();
            if self.at_terminator() {
                region_node(self.bump(), first, second, None, self.current_offset())
            } else {
                match self.parse_debug_node() {
                    Ok(node) => region_node(
                        self.bump(),
                        first,
                        second,
                        Some(node),
                        self.current_offset(),
                    ),
                    Err(e) => Err(e),
                }
            }
        } else {
            match parse_decimal(first.as_bytes()) {
                Some(at) => Ok(DebugNode::Position(at)),
                None => Err(
                    ParseError { kind: "Integer out of range", offset: self.current_offset() },
                ),
            }
        }
    }

    /// Reads the fields of a struct value, if any stand at the cursor.
    fn parse_fields(&mut self) -> (r: Result<Fields<'a>, ParseError<&'static str>>)
        requires
            old(self).wf(),
        ensures
            final(self).follows(*old(self)),
            match spec_fields(old(self).text(), old(self).pos()) {
                Parsed::Done { value, next } => r matches Ok(f) && f.represents(value)
                    && final(self).pos() == next,
                Parsed::Failed { tag, at } => fails_with(r, final(self).pos(), tag, at),
            },
        decreases remaining(old(self).text(), old(self).pos()), 2nat,
    {
        match self.check_delimited_seq(OPEN_PAREN, CLOSE_PAREN, "Expected ',' or ')'") {
            Ok(Some(elements)) => Ok(Fields::Tuple(node_slice(elements))),
            Ok(None) => match self.check_field_seq(OPEN_BRACE, CLOSE_BRACE, "Expected ',' or '}'") {
                Ok(Some(elements)) => Ok(Fields::Struct(field_slice(elements))),
                Ok(None) => Ok(Fields::Unit),
                Err(e) => Err(e),
            },
            Err(e) => Err(e),
        }
    }

    /// Reads the generics and the fields of a struct value behind its name.
    fn parse_struct(&mut self, name: &'a str) -> (r: Result<
        DebugNode<'a>,
        ParseError<&'static str>,
    >)
        requires
            old(self).wf(),
        ensures
            final(self).follows(*old(self)),
            node_read(
                r,
                final(self).pos(),
                spec_struct(old(self).text(), old(self).pos(), name.spec_bytes()),
            ),
        decreases remaining(old(self).text(), old(self).pos()), 3nat,
    {
        self.consume_ws();
        let generics = match self.check_path_seq(OPEN_ANGLE, CLOSE_ANGLE, "Expected ',' or '>'") {
            Ok(Some(items)) => {
                self.consume_ws();
                Some(alloc_in(self.bump(), Generics { params: path_slice(items) }))
            },
            Ok(None) => None,
            Err(e) => {
                return Err(e);
            },
        };
        match self.parse_fields() {
            Ok(fields) => Ok(DebugNode::Struct(name, generics, fields)),
            Err(e) => Err(e),
        }
    }

    /// Reads one node at the cursor, whitespace before it included: a
    /// string, the elision marker, an integer with or without sign, a
    /// location form, a tuple, a list or a struct value. The node is the one
    /// that the grammar gives for the text from the cursor on, and the
    /// cursor ends behind it; what follows the node is not looked at. On an
    /// error the cursor ends at the error's offset.
    pub fn parse_debug_node(&mut self) -> (r: Result<DebugNode<'a>, ParseError<&'static str>>)
        requires
            old(self).wf(),
        ensures
            final(self).follows(*old(self)),
            node_read(r, final(self).pos(), spec_node(old(self).text(), old(self).pos())),
            r is Ok ==> final(self).pos() > old(self).pos(),
        decreases remaining(old(self).text(), old(self).pos()), 4nat,
    {
        self.consume_ws();
        let marker: [u8; 7] = [195, 162, 226, 130, 172, 194, 166];
        assert(marker@ =~= ellipsis_marker());
        if self.check_u8(QUOTE) {
            match self.string_body() {
                Ok(body) => Ok(DebugNode::Str(body)),
                Err(e) => Err(e),
            }
        } else if self.check_bytes(marker.as_slice()) {
            Ok(DebugNode::Ellipsis)
        } else if self.peek_u8(MINUS) {
            let start = self.current_offset();
            let _ = self.check_u8(MINUS);
            match self.expect_int("Expected integer") {
                Ok(_) => {
                    proof {
                        lemma_run_is_maximal(self.text(), start + 1, ByteClass::Digit);
                        assert(ByteClass::Digit.has(self.text()[self.pos() - 1]));
                    }
                    Ok(DebugNode::Int(self.since(start)))
                },
                Err(e) => Err(e),
            }
        } else if self.check_u8(AT_SIGN) {
            self.parse_location()
        } else {
            match self.check_int() {
                Some(digits) => Ok(DebugNode::Int(digits)),
                None => match self.check_delimited_seq(
                    OPEN_PAREN,
                    CLOSE_PAREN,
                    "Expected ',' or ')'",
                ) {
                    Ok(Some(items)) => Ok(DebugNode::Tuple(node_slice(items))),
                    Ok(None) => match self.check_delimited_seq(
                        OPEN_BRACKET,
                        CLOSE_BRACKET,
                        "Expected ',' or ']'",
                    ) {
                        Ok(Some(items)) => Ok(DebugNode::List(node_slice(items))),
                        Ok(None) => match self.check_ident() {
                            Some(name) => self.parse_struct(name),
                            None => Err(
                                ParseError {
                                    kind: "Expected string, integer, tuple, tuple struct, or struct",
                                    offset: self.current_offset(),
                                },
                            ),
                        },
                        Err(e) => Err(e),
                    },
                    Err(e) => Err(e),
                },
            }
        }
    }
}

} // verus!
