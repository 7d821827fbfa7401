use bumpalo::Bump;
use debug_parse::arena::{FieldVec, NodeVec, PathVec};
use debug_parse::grammar::ByteClass;
use debug_parse::number::parse_decimal;
use debug_parse::parse::region_node;
use debug_parse::text::substr;
use debug_parse::{DebugNode, ParseError, Parser};

fn bytes(text: &str) -> &[u8] {
    text.as_bytes()
}

#[test]
fn new_parser_stands_at_the_start() {
    let bump = Bump::new();
    let parser = Parser::new("abc", &bump);
    assert_eq!(parser.current_offset(), 0);
    assert!(!parser.is_eof());
    let empty = Parser::new("", &bump);
    assert!(empty.is_eof());
}

#[test]
fn parser_hands_out_its_arena() {
    let bump = Bump::new();
    let parser = Parser::new("abc", &bump);
    assert!(std::ptr::eq(parser.bump(), &bump));
}

#[test]
fn check_u8_takes_only_a_match() {
    let bump = Bump::new();
    let mut parser = Parser::new("ab", &bump);
    assert!(!parser.check_u8(b'b'));
    assert_eq!(parser.current_offset(), 0);
    assert!(parser.check_u8(b'a'));
    assert_eq!(parser.current_offset(), 1);
    assert!(parser.check_u8(b'b'));
    assert!(!parser.check_u8(b'b'));
    assert_eq!(parser.current_offset(), 2);
}

#[test]
fn peek_u8_moves_nothing() {
    let bump = Bump::new();
    let parser = Parser::new("ab", &bump);
    assert!(parser.peek_u8(b'a'));
    assert!(!parser.peek_u8(b'b'));
    assert_eq!(parser.current_offset(), 0);
    let empty = Parser::new("", &bump);
    assert!(!empty.peek_u8(b'a'));
}

#[test]
fn expect_u8_reports_the_offset() {
    let bump = Bump::new();
    let mut parser = Parser::new("ab", &bump);
    assert_eq!(parser.expect_u8(b'a', 7u32), Ok(()));
    assert_eq!(parser.expect_u8(b'a', 7u32), Err(ParseError { kind: 7u32, offset: 1 }));
    assert_eq!(parser.current_offset(), 1);
}

#[test]
fn check_str_takes_the_whole_text_or_nothing() {
    let bump = Bump::new();
    let mut parser = Parser::new("hello", &bump);
    assert!(!parser.check_str("help"));
    assert_eq!(parser.current_offset(), 0);
    assert!(!parser.check_str("hello!"));
    assert_eq!(parser.current_offset(), 0);
    assert!(parser.check_str(""));
    assert_eq!(parser.current_offset(), 0);
    assert!(parser.check_str("hel"));
    assert_eq!(parser.current_offset(), 3);
    assert!(parser.check_str("lo"));
    assert!(parser.is_eof());
    assert!(parser.check_str(""));
    assert!(!parser.check_str("x"));
}

#[test]
fn check_bytes_takes_the_whole_pattern_or_nothing() {
    let bump = Bump::new();
    let mut parser = Parser::new("hello", &bump);
    assert!(!parser.check_bytes(bytes("hex")));
    assert_eq!(parser.current_offset(), 0);
    assert!(parser.check_bytes(bytes("he")));
    assert_eq!(parser.current_offset(), 2);
}

#[test]
fn expect_str_reports_the_offset() {
    let bump = Bump::new();
    let mut parser = Parser::new("ab", &bump);
    assert_eq!(parser.expect_str("a", "first"), Ok(()));
    assert_eq!(
        parser.expect_str("a", "second"),
        Err(ParseError { kind: "second", offset: 1 })
    );
    assert_eq!(parser.current_offset(), 1);
}

#[test]
fn check_ident_takes_the_longest_run() {
    let bump = Bump::new();
    let mut parser = Parser::new("ab_9Z::c", &bump);
    assert_eq!(parser.check_ident(), Some("ab_9Z"));
    assert_eq!(parser.current_offset(), 5);
    assert_eq!(parser.check_ident(), None);
    assert_eq!(parser.current_offset(), 5);
}

#[test]
fn check_path_ident_takes_colons_too() {
    let bump = Bump::new();
    let mut parser = Parser::new("ab_9Z::c d", &bump);
    assert_eq!(parser.check_path_ident(), Some("ab_9Z::c"));
    assert_eq!(parser.current_offset(), 8);
    assert_eq!(parser.check_path_ident(), None);
    assert_eq!(parser.current_offset(), 8);
}

#[test]
fn check_int_takes_digits_only() {
    let bump = Bump::new();
    let mut parser = Parser::new("0123a", &bump);
    assert_eq!(parser.check_int(), Some("0123"));
    assert_eq!(parser.current_offset(), 4);
    assert_eq!(parser.check_int(), None);
    assert_eq!(parser.current_offset(), 4);
    let mut signed = Parser::new("-1", &bump);
    assert_eq!(signed.check_int(), None);
}

#[test]
fn expect_variants_report_the_offset() {
    let bump = Bump::new();
    let mut parser = Parser::new("a 1", &bump);
    assert_eq!(parser.expect_int("int"), Err(ParseError { kind: "int", offset: 0 }));
    assert_eq!(parser.expect_ident("ident"), Ok("a"));
    assert_eq!(parser.expect_ident("ident"), Err(ParseError { kind: "ident", offset: 1 }));
    assert_eq!(parser.expect_path_ident("path"), Err(ParseError { kind: "path", offset: 1 }));
    parser.consume_ws();
    assert_eq!(parser.expect_int("int"), Ok("1"));
    assert_eq!(parser.expect_path_ident("path"), Err(ParseError { kind: "path", offset: 3 }));
    assert_eq!(parser.current_offset(), 3);
}

#[test]
fn consume_ws_takes_ascii_whitespace() {
    let bump = Bump::new();
    let mut parser = Parser::new(" \t\n\x0c\r\x0bx", &bump);
    parser.consume_ws();
    assert_eq!(parser.current_offset(), 5);
    parser.consume_ws();
    assert_eq!(parser.current_offset(), 5);
    let mut blank = Parser::new("   ", &bump);
    blank.consume_ws();
    assert!(blank.is_eof());
}

#[test]
fn at_terminator_knows_its_bytes() {
    let bump = Bump::new();
    for text in [",", ")", "]", "}", ""] {
        assert!(Parser::new(text, &bump).at_terminator());
    }
    for text in ["(", "[", "{", " ", "a", ">", ":"] {
        assert!(!Parser::new(text, &bump).at_terminator());
    }
}

#[test]
fn byte_classes() {
    for byte in 0..=255u8 {
        let word = byte.is_ascii_alphanumeric() || byte == b'_';
        assert_eq!(ByteClass::Ident.contains(byte), word);
        assert_eq!(ByteClass::Path.contains(byte), word || byte == b':');
        assert_eq!(ByteClass::Digit.contains(byte), byte.is_ascii_digit());
        assert_eq!(ByteClass::Space.contains(byte), byte.is_ascii_whitespace());
    }
}

#[test]
fn parse_decimal_reads_numbers() {
    assert_eq!(parse_decimal(bytes("0")), Some(0));
    assert_eq!(parse_decimal(bytes("007")), Some(7));
    assert_eq!(parse_decimal(bytes("1234567890")), Some(1234567890));
    let max = usize::MAX.to_string();
    assert_eq!(parse_decimal(max.as_bytes()), Some(usize::MAX));
}

#[test]
fn parse_decimal_refuses_what_is_no_number() {
    assert_eq!(parse_decimal(bytes("")), None);
    assert_eq!(parse_decimal(bytes("-1")), None);
    assert_eq!(parse_decimal(bytes("+1")), None);
    assert_eq!(parse_decimal(bytes("12a")), None);
    assert_eq!(parse_decimal(bytes(" 1")), None);
}

#[test]
fn parse_decimal_refuses_what_does_not_fit() {
    let max = usize::MAX.to_string();
    let mut above = max.clone().into_bytes();
    let last = above.len() - 1;
    above[last] += 1;
    assert_eq!(parse_decimal(&above), None);
    let longer = format!("{}0", max);
    assert_eq!(parse_decimal(longer.as_bytes()), None);
    assert_eq!(parse_decimal(bytes("99999999999999999999999999999999999999999")), None);
}

#[test]
fn region_node_refuses_what_is_no_number() {
    let bump = Bump::new();
    assert_eq!(
        region_node(&bump, "", "1", None, 4),
        Err(ParseError { kind: "Integer out of range", offset: 4 })
    );
    assert_eq!(
        region_node(&bump, "1", "x", None, 4),
        Err(ParseError { kind: "Integer out of range", offset: 4 })
    );
}

#[test]
fn substr_cuts_between_byte_offsets() {
    let text = "a\u{e9}\"b\u{2026}\"c";
    assert_eq!(text.len(), 10);
    assert_eq!(substr(text, 0, 1), "a");
    assert_eq!(substr(text, 4, 8), "b\u{2026}");
    assert_eq!(substr(text, 9, 10), "c");
    assert_eq!(substr(text, 3, 3), "");
    assert_eq!(substr(text, 0, 10), text);
}

#[test]
fn region_node_builds_both_forms() {
    let bump = Bump::new();
    assert_eq!(
        region_node(&bump, "3", "14", None, 9),
        Ok(DebugNode::Region(3, 14))
    );
    let child = DebugNode::Int("1");
    assert_eq!(
        region_node(&bump, "3", "14", Some(DebugNode::Int("1")), 9),
        Ok(DebugNode::Loc(3, 14, &child))
    );
    assert_eq!(
        region_node(&bump, "3", "99999999999999999999999999", None, 9),
        Err(ParseError { kind: "Integer out of range", offset: 9 })
    );
}

#[test]
fn delimited_seq_is_absent_without_its_opening_byte() {
    let bump = Bump::new();
    let mut parser = Parser::new("[1]", &bump);
    let absent: Option<NodeVec> = parser.check_delimited_seq(b'(', b')', "tag").unwrap();
    assert!(absent.is_none());
    assert_eq!(parser.current_offset(), 0);
}

#[test]
fn delimited_seq_reads_nodes_in_order() {
    let bump = Bump::new();
    let mut parser = Parser::new("<1, a, \"s\",>x", &bump);
    let items: NodeVec = parser.check_delimited_seq(b'<', b'>', "tag").unwrap().unwrap();
    assert_eq!(items.len(), 3);
    assert_eq!(items[0], DebugNode::Int("1"));
    assert_eq!(items[2], DebugNode::Str("s"));
    assert_eq!(parser.current_offset(), 12);
}

#[test]
fn delimited_seq_fails_with_the_given_tag() {
    let bump = Bump::new();
    let mut parser = Parser::new("(1 2)", &bump);
    let err = parser.check_delimited_seq(b'(', b')', "tag").unwrap_err();
    assert_eq!(err, ParseError { kind: "tag", offset: 3 });
    assert_eq!(parser.current_offset(), 3);
}

#[test]
fn path_seq_reads_paths_in_order() {
    let bump = Bump::new();
    let mut parser = Parser::new("<a::b , c>", &bump);
    let items: PathVec = parser.check_path_seq(b'<', b'>', "tag").unwrap().unwrap();
    assert_eq!(items.as_slice(), &["a::b", "c"]);
    assert!(parser.is_eof());
    let mut other = Parser::new("(a)", &bump);
    assert!(other.check_path_seq(b'<', b'>', "tag").unwrap().is_none());
    let mut bad = Parser::new("<a b>", &bump);
    assert_eq!(
        bad.check_path_seq(b'<', b'>', "tag").unwrap_err(),
        ParseError { kind: "tag", offset: 3 }
    );
    let mut hole = Parser::new("<a, (>", &bump);
    assert_eq!(
        hole.check_path_seq(b'<', b'>', "tag").unwrap_err(),
        ParseError { kind: "Expected identifier", offset: 4 }
    );
}

#[test]
fn field_seq_reads_pairs_in_order() {
    let bump = Bump::new();
    let mut parser = Parser::new("{b: 2, a: 1}", &bump);
    let items: FieldVec = parser.check_field_seq(b'{', b'}', "tag").unwrap().unwrap();
    assert_eq!(items.len(), 2);
    assert_eq!(items[0], ("b", DebugNode::Int("2")));
    assert_eq!(items[1], ("a", DebugNode::Int("1")));
    let mut other = Parser::new("(a: 1)", &bump);
    assert!(other.check_field_seq(b'{', b'}', "tag").unwrap().is_none());
    let mut bad = Parser::new("{a: 1; b: 2}", &bump);
    assert_eq!(
        bad.check_field_seq(b'{', b'}', "tag").unwrap_err(),
        ParseError { kind: "tag", offset: 5 }
    );
}
