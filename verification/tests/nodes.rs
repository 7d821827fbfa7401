use bumpalo::Bump;
use debug_parse::{DebugNode, Fields, Generics, ParseError, Parser};

const ELLIPSIS: &[u8] = &[195, 162, 226, 130, 172, 194, 166];

fn digits(text: &str) -> DebugNode<'_> {
    DebugNode::Int(text)
}

fn failure(text: &str) -> (&'static str, usize, usize) {
    let bump = Bump::new();
    let mut parser = Parser::new(text, &bump);
    match parser.parse_debug_node() {
        Ok(node) => panic!("{:?} was read as {:?}", text, node),
        Err(err) => (err.kind, err.offset, parser.current_offset()),
    }
}

#[test]
fn string_literal() {
    let bump = Bump::new();
    let mut parser = Parser::new("\"abc\"", &bump);
    assert_eq!(parser.parse_debug_node(), Ok(DebugNode::Str("abc")));
    assert_eq!(parser.current_offset(), 5);
}

#[test]
fn string_keeps_escaped_quote_undecoded() {
    let bump = Bump::new();
    let mut parser = Parser::new("\"a\\\"b\"", &bump);
    assert_eq!(parser.parse_debug_node(), Ok(DebugNode::Str("a\\\"b")));
    assert!(parser.is_eof());
}

#[test]
fn string_keeps_escaped_backslash_undecoded() {
    let bump = Bump::new();
    let mut parser = Parser::new("\"a\\\\\" x", &bump);
    assert_eq!(parser.parse_debug_node(), Ok(DebugNode::Str("a\\\\")));
    assert_eq!(parser.current_offset(), 5);
}

#[test]
fn string_other_escape_stands_as_written() {
    let bump = Bump::new();
    let mut parser = Parser::new("\"a\\nb\"", &bump);
    assert_eq!(parser.parse_debug_node(), Ok(DebugNode::Str("a\\nb")));
}

#[test]
fn string_with_text_beyond_ascii() {
    let bump = Bump::new();
    let mut parser = Parser::new("\"h\u{e9}llo \u{2026} \\\u{1f600}\" x", &bump);
    assert_eq!(
        parser.parse_debug_node(),
        Ok(DebugNode::Str("h\u{e9}llo \u{2026} \\\u{1f600}"))
    );
    assert_eq!(parser.current_offset(), 18);
}

#[test]
fn text_beyond_ascii_ends_an_identifier() {
    let bump = Bump::new();
    let mut parser = Parser::new("caf\u{e9}", &bump);
    assert_eq!(
        parser.parse_debug_node(),
        Ok(DebugNode::Struct("caf", None, Fields::Unit))
    );
    assert_eq!(parser.current_offset(), 3);
    assert_eq!(
        parser.parse_debug_node(),
        Err(ParseError {
            kind: "Expected string, integer, tuple, tuple struct, or struct",
            offset: 3
        })
    );
}

#[test]
fn empty_string() {
    let bump = Bump::new();
    let mut parser = Parser::new("\"\"", &bump);
    assert_eq!(parser.parse_debug_node(), Ok(DebugNode::Str("")));
}

#[test]
fn unsigned_integer() {
    let bump = Bump::new();
    let mut parser = Parser::new("42", &bump);
    assert_eq!(parser.parse_debug_node(), Ok(digits("42")));
    assert_eq!(parser.current_offset(), 2);
}

#[test]
fn signed_integer_keeps_its_sign() {
    let bump = Bump::new();
    let mut parser = Parser::new("-7", &bump);
    assert_eq!(parser.parse_debug_node(), Ok(digits("-7")));
    assert_eq!(parser.current_offset(), 2);
}

#[test]
fn integer_text_is_not_evaluated() {
    let bump = Bump::new();
    let mut parser = Parser::new("000123456789012345678901234567890", &bump);
    assert_eq!(parser.parse_debug_node(), Ok(digits("000123456789012345678901234567890")));
}

#[test]
fn minus_without_digits() {
    assert_eq!(failure("-x"), ("Expected integer", 1, 1));
    assert_eq!(failure("  -"), ("Expected integer", 3, 3));
}

#[test]
fn elision_marker() {
    let text = String::from_utf8(ELLIPSIS.to_vec()).unwrap();
    let bump = Bump::new();
    let mut parser = Parser::new(&text, &bump);
    assert_eq!(parser.parse_debug_node(), Ok(DebugNode::Ellipsis));
    assert_eq!(parser.current_offset(), 7);
}

#[test]
fn elision_marker_inside_a_list() {
    let marker = String::from_utf8(ELLIPSIS.to_vec()).unwrap();
    let text = format!("[1, {}]", marker);
    let bump = Bump::new();
    let mut parser = Parser::new(&text, &bump);
    assert_eq!(
        parser.parse_debug_node(),
        Ok(DebugNode::List(&[digits("1"), DebugNode::Ellipsis]))
    );
}

#[test]
fn position() {
    let bump = Bump::new();
    let mut parser = Parser::new("@5", &bump);
    assert_eq!(parser.parse_debug_node(), Ok(DebugNode::Position(5)));
    assert_eq!(parser.current_offset(), 2);
}

#[test]
fn position_reads_no_node_behind_it() {
    let bump = Bump::new();
    let mut parser = Parser::new("@5 Foo", &bump);
    assert_eq!(parser.parse_debug_node(), Ok(DebugNode::Position(5)));
    assert_eq!(parser.current_offset(), 2);
}

#[test]
fn region_at_end_of_input() {
    let bump = Bump::new();
    let mut parser = Parser::new("@5-9", &bump);
    assert_eq!(parser.parse_debug_node(), Ok(DebugNode::Region(5, 9)));
    assert_eq!(parser.current_offset(), 4);
}

#[test]
fn region_before_each_terminator() {
    for text in ["@5-9,", "@5-9)", "@5-9]", "@5-9}", "@5-9  ,"] {
        let bump = Bump::new();
        let mut parser = Parser::new(text, &bump);
        assert_eq!(parser.parse_debug_node(), Ok(DebugNode::Region(5, 9)));
        assert_eq!(parser.current_offset(), text.len() - 1);
    }
}

#[test]
fn region_bounds_are_not_compared() {
    let bump = Bump::new();
    let mut parser = Parser::new("@9-5", &bump);
    assert_eq!(parser.parse_debug_node(), Ok(DebugNode::Region(9, 5)));
}

#[test]
fn located_node() {
    let bump = Bump::new();
    let mut parser = Parser::new("@5-9 Foo", &bump);
    let inner = DebugNode::Struct("Foo", None, Fields::Unit);
    assert_eq!(parser.parse_debug_node(), Ok(DebugNode::Loc(5, 9, &inner)));
    assert_eq!(parser.current_offset(), 8);
}

#[test]
fn located_nodes_nest() {
    let bump = Bump::new();
    let mut parser = Parser::new("@0-10 @2-3 \"x\"", &bump);
    let innermost = DebugNode::Str("x");
    let inner = DebugNode::Loc(2, 3, &innermost);
    assert_eq!(parser.parse_debug_node(), Ok(DebugNode::Loc(0, 10, &inner)));
}

#[test]
fn location_without_digits() {
    assert_eq!(failure("@x"), ("Expected integer", 1, 1));
    assert_eq!(failure("@5-"), ("Expected integer", 3, 3));
    assert_eq!(failure("@5-x"), ("Expected integer", 3, 3));
}

#[test]
fn location_error_of_the_wrapped_node() {
    assert_eq!(
        failure("@5-9 ?"),
        ("Expected string, integer, tuple, tuple struct, or struct", 5, 5)
    );
}

#[test]
fn location_bound_too_large() {
    assert_eq!(
        failure("@99999999999999999999999999"),
        ("Integer out of range", 27, 27)
    );
    assert_eq!(
        failure("@1-99999999999999999999999999"),
        ("Integer out of range", 29, 29)
    );
    assert_eq!(
        failure("@99999999999999999999999999-1 Foo"),
        ("Integer out of range", 33, 33)
    );
}

#[test]
fn location_bound_at_the_limit() {
    let text = format!("@{}", usize::MAX);
    let bump = Bump::new();
    let mut parser = Parser::new(&text, &bump);
    assert_eq!(parser.parse_debug_node(), Ok(DebugNode::Position(usize::MAX)));
}

#[test]
fn tuple_struct() {
    let bump = Bump::new();
    let mut parser = Parser::new("Foo(1, 2)", &bump);
    assert_eq!(
        parser.parse_debug_node(),
        Ok(DebugNode::Struct("Foo", None, Fields::Tuple(&[digits("1"), digits("2")])))
    );
    assert_eq!(parser.current_offset(), 9);
}

#[test]
fn field_struct_keeps_field_order() {
    let bump = Bump::new();
    let mut parser = Parser::new("Foo{a: 1, b: 2}", &bump);
    assert_eq!(
        parser.parse_debug_node(),
        Ok(DebugNode::Struct(
            "Foo",
            None,
            Fields::Struct(&[("a", digits("1")), ("b", digits("2"))])
        ))
    );
    let mut swapped = Parser::new("Foo{b: 2, a: 1}", &bump);
    assert_eq!(
        swapped.parse_debug_node(),
        Ok(DebugNode::Struct(
            "Foo",
            None,
            Fields::Struct(&[("b", digits("2")), ("a", digits("1"))])
        ))
    );
}

#[test]
fn generic_tuple_struct() {
    let bump = Bump::new();
    let mut parser = Parser::new("Bar<T, U>(1)", &bump);
    let generics = Generics { params: &["T", "U"] };
    assert_eq!(
        parser.parse_debug_node(),
        Ok(DebugNode::Struct("Bar", Some(&generics), Fields::Tuple(&[digits("1")])))
    );
}

#[test]
fn generics_take_paths() {
    let bump = Bump::new();
    let mut parser = Parser::new("Map <std::string::String, u8> { }", &bump);
    let generics = Generics { params: &["std::string::String", "u8"] };
    assert_eq!(
        parser.parse_debug_node(),
        Ok(DebugNode::Struct("Map", Some(&generics), Fields::Struct(&[])))
    );
}

#[test]
fn empty_generics() {
    let bump = Bump::new();
    let mut parser = Parser::new("Foo<>", &bump);
    let generics = Generics { params: &[] };
    assert_eq!(
        parser.parse_debug_node(),
        Ok(DebugNode::Struct("Foo", Some(&generics), Fields::Unit))
    );
}

#[test]
fn unit_struct_takes_the_whitespace_behind_its_name() {
    let bump = Bump::new();
    let mut parser = Parser::new("Foo  ,", &bump);
    assert_eq!(
        parser.parse_debug_node(),
        Ok(DebugNode::Struct("Foo", None, Fields::Unit))
    );
    assert_eq!(parser.current_offset(), 5);
}

#[test]
fn struct_name_is_an_identifier_not_a_path() {
    let bump = Bump::new();
    let mut parser = Parser::new("a::b", &bump);
    assert_eq!(
        parser.parse_debug_node(),
        Ok(DebugNode::Struct("a", None, Fields::Unit))
    );
    assert_eq!(parser.current_offset(), 1);
}

#[test]
fn trailing_comma_changes_nothing() {
    let bump = Bump::new();
    let mut with = Parser::new("(1, 2,)", &bump);
    let mut without = Parser::new("(1, 2)", &bump);
    let a = with.parse_debug_node();
    let c = without.parse_debug_node();
    assert_eq!(a, c);
    assert_eq!(a, Ok(DebugNode::Tuple(&[digits("1"), digits("2")])));
    assert!(with.is_eof());
}

#[test]
fn two_trailing_commas_are_an_error() {
    assert_eq!(
        failure("(1,,)"),
        ("Expected string, integer, tuple, tuple struct, or struct", 3, 3)
    );
}

#[test]
fn comma_alone_is_no_sequence() {
    assert_eq!(
        failure("(,)"),
        ("Expected string, integer, tuple, tuple struct, or struct", 1, 1)
    );
}

#[test]
fn empty_containers() {
    let bump = Bump::new();
    let mut tuple = Parser::new("()", &bump);
    assert_eq!(tuple.parse_debug_node(), Ok(DebugNode::Tuple(&[])));
    let mut list = Parser::new("[]", &bump);
    assert_eq!(list.parse_debug_node(), Ok(DebugNode::List(&[])));
    let mut spaced = Parser::new("(  \n )", &bump);
    assert_eq!(spaced.parse_debug_node(), Ok(DebugNode::Tuple(&[])));
    assert_eq!(spaced.current_offset(), 6);
}

#[test]
fn nested_containers() {
    let bump = Bump::new();
    let mut parser = Parser::new(" [ ( 1 , [ ] ) , \"s\" , Foo { x: ( ) } ] ", &bump);
    let inner = [digits("1"), DebugNode::List(&[])];
    let fields = [("x", DebugNode::Tuple(&[]))];
    assert_eq!(
        parser.parse_debug_node(),
        Ok(DebugNode::List(&[
            DebugNode::Tuple(&inner),
            DebugNode::Str("s"),
            DebugNode::Struct("Foo", None, Fields::Struct(&fields)),
        ]))
    );
}

#[test]
fn unclosed_tuple() {
    let text = "(1, 2";
    assert_eq!(failure(text), ("Expected ',' or ')'", text.len(), text.len()));
}

#[test]
fn missing_separator() {
    assert_eq!(failure("[1 2]"), ("Expected ',' or ']'", 3, 3));
    assert_eq!(failure("Foo(1 2)"), ("Expected ',' or ')'", 6, 6));
    assert_eq!(failure("Foo{a: 1 b: 2}"), ("Expected ',' or '}'", 9, 9));
    assert_eq!(failure("Foo<T U>"), ("Expected ',' or '>'", 6, 6));
}

#[test]
fn malformed_fields() {
    assert_eq!(failure("Foo{: 1}"), ("Expected identifier", 4, 4));
    assert_eq!(failure("Foo{a 1}"), ("Expected ':'", 5, 5));
    assert_eq!(failure("Foo{a : 1}"), ("Expected ':'", 5, 5));
    assert_eq!(
        failure("Foo{a: }"),
        ("Expected string, integer, tuple, tuple struct, or struct", 7, 7)
    );
}

#[test]
fn malformed_generics() {
    assert_eq!(failure("Foo<(>"), ("Expected identifier", 4, 4));
    assert_eq!(failure("Foo<T"), ("Expected ',' or '>'", 5, 5));
}

#[test]
fn unterminated_string_and_unterminated_escape_differ() {
    let open = failure("\"abc");
    let escape = failure("\"abc\\");
    assert_eq!(open, ("Unterminated string literal", 4, 4));
    assert_eq!(escape, ("Unterminated string escape", 4, 4));
    assert_ne!(open.0, escape.0);
}

#[test]
fn unknown_start() {
    assert_eq!(
        failure("  ?"),
        ("Expected string, integer, tuple, tuple struct, or struct", 2, 2)
    );
    assert_eq!(
        failure(""),
        ("Expected string, integer, tuple, tuple struct, or struct", 0, 0)
    );
}

#[test]
fn error_of_an_element_is_handed_on() {
    assert_eq!(failure("(1, \"ab"), ("Unterminated string literal", 7, 7));
    assert_eq!(failure("[Foo{a: -}]"), ("Expected integer", 9, 9));
}

#[test]
fn same_malformed_input_same_error() {
    for text in ["(1, 2", "\"abc", "Foo{a 1}", "@5-", "[1 2]", "?"] {
        let first = failure(text);
        for _ in 0..3 {
            assert_eq!(failure(text), first);
        }
    }
}

#[test]
fn input_behind_the_node_is_left() {
    let bump = Bump::new();
    let mut parser = Parser::new("1 2", &bump);
    assert_eq!(parser.parse_debug_node(), Ok(digits("1")));
    assert_eq!(parser.current_offset(), 1);
    assert!(!parser.is_eof());
    assert_eq!(parser.parse_debug_node(), Ok(digits("2")));
    assert!(parser.is_eof());
    assert_eq!(
        parser.parse_debug_node(),
        Err(ParseError {
            kind: "Expected string, integer, tuple, tuple struct, or struct",
            offset: 3
        })
    );
}

#[test]
fn tree_lives_as_long_as_the_arena() {
    let bump = Bump::new();
    let text = String::from("Foo(@1-2 Bar, [3])");
    let node = {
        let mut parser = Parser::new(&text, &bump);
        parser.parse_debug_node().unwrap()
    };
    let bar = DebugNode::Struct("Bar", None, Fields::Unit);
    assert_eq!(
        node,
        DebugNode::Struct(
            "Foo",
            None,
            Fields::Tuple(&[DebugNode::Loc(1, 2, &bar), DebugNode::List(&[digits("3")])])
        )
    );
}
