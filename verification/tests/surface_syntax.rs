use websocat_api::grammar::ParseErrorKind;
use websocat_api::identchar;
use websocat_api::lexeme::{bare, hex_digit};
use websocat_api::parser::ParseError;
use websocat_api::{Ident, StringOrSubnode, StringyNode};

fn ident(s: &str) -> Ident {
    Ident(s.as_bytes().to_vec())
}

fn text(s: &str) -> StringOrSubnode {
    StringOrSubnode::Str(s.as_bytes().to_vec())
}

fn node(
    name: &str,
    properties: Vec<(&str, StringOrSubnode)>,
    array: Vec<StringOrSubnode>,
) -> StringyNode {
    StringyNode {
        name: ident(name),
        properties: properties.into_iter().map(|(k, v)| (ident(k), v)).collect(),
        array,
    }
}

fn parse(s: &str) -> Result<StringyNode, ParseError> {
    StringyNode::from_str(s)
}

fn kind_of(s: &str) -> ParseErrorKind {
    parse(s).unwrap_err().kind
}

#[test]
fn identifier_bytes() {
    for b in 0u8..=255 {
        let expected = b.is_ascii_alphanumeric() || b"_:?@./#&".contains(&b) || b >= 0x80;
        assert_eq!(identchar(b), expected, "byte {}", b);
    }
}

#[test]
fn hex_digits() {
    assert_eq!(hex_digit(b'0'), Some(0));
    assert_eq!(hex_digit(b'9'), Some(9));
    assert_eq!(hex_digit(b'a'), Some(10));
    assert_eq!(hex_digit(b'F'), Some(15));
    assert_eq!(hex_digit(b'g'), None);
    assert_eq!(hex_digit(b' '), None);
}

#[test]
fn name_alone() {
    assert_eq!(parse("[n]"), Ok(node("n", vec![], vec![])));
}

#[test]
fn empty_node_is_rejected() {
    assert_eq!(kind_of("[]"), ParseErrorKind::EmptyNode);
    assert_eq!(kind_of("[   ]"), ParseErrorKind::EmptyNode);
}

#[test]
fn extra_spaces_change_nothing() {
    let wide = parse("[n  x   y]").unwrap();
    let narrow = parse("[n x y]").unwrap();
    assert_eq!(wide, narrow);
    assert_eq!(narrow, node("n", vec![], vec![text("x"), text("y")]));
    assert_eq!(parse("[  n x]"), Ok(node("n", vec![], vec![text("x")])));
    assert_eq!(parse("[n x ]"), Ok(node("n", vec![], vec![text("x")])));
}

#[test]
fn dangling_equals_is_rejected() {
    assert_eq!(kind_of("[n x=]"), ParseErrorKind::EmptyValue);
    assert_eq!(kind_of("[n x= y]"), ParseErrorKind::EmptyValue);
    assert_eq!(kind_of("[n =x]"), ParseErrorKind::InvalidByte(b'='));
}

#[test]
fn empty_quoted_string() {
    assert_eq!(parse("[n \"\"]"), Ok(node("n", vec![], vec![text("")])));
    assert_eq!(parse("[n k=\"\"]"), Ok(node("n", vec![("k", text(""))], vec![])));
}

#[test]
fn hex_escape_gives_any_byte() {
    let parsed = parse("[n \"\\xff\"]").unwrap();
    assert_eq!(parsed.array, vec![StringOrSubnode::Str(vec![0xff])]);
    let parsed = parse("[n \"\\x41\\x4a\\x00\\xFe\"]").unwrap();
    assert_eq!(parsed.array, vec![StringOrSubnode::Str(vec![0x41, 0x4a, 0x00, 0xfe])]);
}

#[test]
fn one_letter_escapes() {
    let parsed = parse("[n \"a\\tb\\nc\\'d\\\"e\\\\f\"]").unwrap();
    assert_eq!(parsed.array, vec![text("a\tb\nc'd\"e\\f")]);
}

#[test]
fn quoted_string_takes_any_byte() {
    let parsed = parse("[n \"a b=[c] 'd'\"]").unwrap();
    assert_eq!(parsed.array, vec![text("a b=[c] 'd'")]);
}

#[test]
fn properties_of_tcp() {
    assert_eq!(
        parse("[tcp host=127.0.0.1 port=80]"),
        Ok(node("tcp", vec![("host", text("127.0.0.1")), ("port", text("80"))], vec![]))
    );
}

#[test]
fn nested_node_in_array() {
    let parsed = parse("[ws_c [tcp host=h port=1]]").unwrap();
    assert_eq!(parsed.name, ident("ws_c"));
    assert!(parsed.properties.is_empty());
    assert_eq!(parsed.array.len(), 1);
    let inner = node("tcp", vec![("host", text("h")), ("port", text("1"))], vec![]);
    assert_eq!(parsed.array[0], StringOrSubnode::Subnode(inner));
}

#[test]
fn hyphen_is_no_identifier_byte() {
    assert!(!identchar(b'-'));
    let e = parse("[ws-c [tcp host=h port=1]]").unwrap_err();
    assert_eq!(e.kind, ParseErrorKind::InvalidNameByte(b'-'));
    assert_eq!(e.offset, 3);
}

#[test]
fn nested_node_as_property() {
    let inner = node("c", vec![], vec![text("x")]);
    assert_eq!(
        parse("[a b=[c x] d]"),
        Ok(node("a", vec![("b", StringOrSubnode::Subnode(inner))], vec![text("d")]))
    );
}

#[test]
fn properties_and_array_keep_their_order() {
    assert_eq!(
        parse("[a x=1 p y=2 q]"),
        Ok(node("a", vec![("x", text("1")), ("y", text("2"))], vec![text("p"), text("q")]))
    );
}

#[test]
fn duplicate_keys_are_kept() {
    assert_eq!(
        parse("[a x=1 x=2]"),
        Ok(node("a", vec![("x", text("1")), ("x", text("2"))], vec![]))
    );
}

#[test]
fn canonical_print() {
    let parsed = parse("[a  x=\"hello world\"  y]").unwrap();
    assert_eq!(parsed.to_bytes(), b"[a x=\"hello world\" y]".to_vec());
}

#[test]
fn print_quotes_what_is_not_bare() {
    let n = node(
        "n",
        vec![("k", text("")), ("l", text("a b"))],
        vec![
            text("plain"),
            text("tab\there"),
            text("line\nfeed"),
            text("cr\rhere"),
            text("q\"uote"),
            text("back\\slash"),
            text("it's"),
            StringOrSubnode::Str(vec![0xff, 0x00, 0x7f]),
            text("x=y"),
        ],
    );
    let expected: &[u8] = b"[n k=\"\" l=\"a b\" plain \"tab\\there\" \"line\\nfeed\" \"cr\\x0dhere\" \"q\\\"uote\" \"back\\\\slash\" \"it's\" \"\\xff\\x00\\x7f\" \"x=y\"]";
    assert_eq!(n.to_bytes(), expected.to_vec());
}

#[test]
fn bare_values() {
    assert!(bare(b"abc"));
    assert!(bare(b"127.0.0.1"));
    assert!(bare(b"a/b:c?d@e#f&g_h"));
    assert!(!bare(b""));
    assert!(!bare(b"a b"));
    assert!(!bare(b"a-b"));
    assert!(!bare(&[0x80]));
    assert!(!bare(b"a\"b"));
}

#[test]
fn forced_space_after_quote() {
    let e = parse("[a \"b\"c]").unwrap_err();
    assert_eq!(e.kind, ParseErrorKind::ExpectedSpace(b'c'));
    assert_eq!(e.offset, 6);
    assert_eq!(e.node, Some(b"a".to_vec()));
    assert!(e.description().contains("Expected a space character or `]` after `\"`"));
}

#[test]
fn forced_space_after_nested_node() {
    assert_eq!(kind_of("[a [b]c]"), ParseErrorKind::ExpectedSpace(b'c'));
    assert_eq!(kind_of("[a [b][c]]"), ParseErrorKind::ExpectedSpace(b'['));
    assert_eq!(parse("[a [b] [c]]").unwrap().array.len(), 2);
}

#[test]
fn every_kind_of_fault() {
    assert_eq!(kind_of(""), ParseErrorKind::MissingOpen);
    assert_eq!(kind_of("n]"), ParseErrorKind::MissingOpen);
    assert_eq!(kind_of("[n=]"), ParseErrorKind::InvalidNameByte(b'='));
    assert_eq!(kind_of("[\"n\"]"), ParseErrorKind::InvalidNameByte(b'"'));
    assert_eq!(kind_of("[n -]"), ParseErrorKind::InvalidByte(b'-'));
    assert_eq!(kind_of("[n x=]"), ParseErrorKind::EmptyValue);
    assert_eq!(kind_of("[n x=y=z]"), ParseErrorKind::DuplicateEquals);
    assert_eq!(kind_of("[n x\"y\"]"), ParseErrorKind::MisplacedQuote);
    assert_eq!(kind_of("[n x=y\"z\"]"), ParseErrorKind::MisplacedQuote);
    assert_eq!(kind_of("[n x[y]]"), ParseErrorKind::MisplacedOpen);
    assert_eq!(kind_of("[n x=y[z]]"), ParseErrorKind::MisplacedOpen);
    assert_eq!(kind_of("[n x-y]"), ParseErrorKind::InvalidValueByte(b'-'));
    assert_eq!(kind_of("[n \"\\q\"]"), ParseErrorKind::InvalidEscape(b'q'));
    assert_eq!(kind_of("[n \"\\r\"]"), ParseErrorKind::InvalidEscape(b'r'));
    assert_eq!(kind_of("[n \"\\xg0\"]"), ParseErrorKind::InvalidHexDigit(b'g'));
    assert_eq!(kind_of("[n \"\\x0\"]"), ParseErrorKind::InvalidHexDigit(b'"'));
    assert_eq!(kind_of("[n"), ParseErrorKind::Truncated);
    assert_eq!(kind_of("[n \"abc"), ParseErrorKind::Truncated);
    assert_eq!(kind_of("[n [m]"), ParseErrorKind::Truncated);
    assert_eq!(kind_of("[]"), ParseErrorKind::EmptyNode);
}

#[test]
fn faults_carry_their_context() {
    let e = parse("[node key=]").unwrap_err();
    assert_eq!(e.kind, ParseErrorKind::EmptyValue);
    assert_eq!(e.offset, 10);
    assert_eq!(e.node, Some(b"node".to_vec()));
    assert_eq!(e.property, Some(b"key".to_vec()));
    let e = parse("[outer [inner \"x\"y]]").unwrap_err();
    assert_eq!(e.kind, ParseErrorKind::ExpectedSpace(b'y'));
    assert_eq!(e.node, Some(b"inner".to_vec()));
    assert_eq!(e.offset, 17);
    let e = parse("[abc").unwrap_err();
    assert_eq!(e.kind, ParseErrorKind::Truncated);
    assert_eq!(e.offset, 4);
    assert_eq!(e.node, None);
}

#[test]
fn every_fault_has_words() {
    let inputs = [
        "", "[n=]", "[a \"b\"c]", "[n -]", "[n x=]", "[n x=y=z]", "[n x\"y\"]", "[n x[y]]",
        "[n x-y]", "[n \"\\q\"]", "[n \"\\xg0\"]", "[n", "[]",
    ];
    let mut seen: Vec<&'static str> = Vec::new();
    for input in inputs {
        let words = parse(input).unwrap_err().description();
        assert!(!words.is_empty());
        assert!(!seen.contains(&words));
        seen.push(words);
    }
    assert_eq!(parse("[]").unwrap_err().description(), "Empty tree nodes are not allowed");
    assert_eq!(parse("x").unwrap_err().description(), "Tree node must begin with `[` character");
}

#[test]
fn reading_stops_behind_the_node() {
    let input = b"[a [b c] d] trailing [garbage";
    let (first, end) = StringyNode::read(input, 0).unwrap();
    assert_eq!(end, 11);
    assert_eq!(input[end - 1], b']');
    let (again, end_again) = StringyNode::read(b"[a [b c] d]", 0).unwrap();
    assert_eq!(first, again);
    assert_eq!(end, end_again);
    assert_eq!(StringyNode::from_bytes(input), Ok(again));
}

#[test]
fn reading_from_the_middle() {
    let input = b"xx[a b][c]";
    let (first, end) = StringyNode::read(input, 2).unwrap();
    assert_eq!(first, node("a", vec![], vec![text("b")]));
    assert_eq!(end, 7);
    let (second, end) = StringyNode::read(input, end).unwrap();
    assert_eq!(second, node("c", vec![], vec![]));
    assert_eq!(end, 10);
    assert_eq!(StringyNode::read(input, 10).unwrap_err().kind, ParseErrorKind::MissingOpen);
    assert_eq!(StringyNode::read(input, 99).unwrap_err().kind, ParseErrorKind::MissingOpen);
}

#[test]
fn printed_tree_reads_back() {
    let inner = node(
        "in.ner",
        vec![("k", StringOrSubnode::Str(vec![0, 1, 2, 0xfe, b'"', b'\\']))],
        vec![text(""), text("bare")],
    );
    let deepest = node("z", vec![], vec![]);
    let tree = node(
        "outer",
        vec![
            ("a", text("1")),
            ("a", text("two words")),
            ("sub", StringOrSubnode::Subnode(inner)),
        ],
        vec![text("x"), StringOrSubnode::Subnode(deepest), text("\r\n\t'")],
    );
    let printed = tree.to_bytes();
    let (back, end) = StringyNode::read(&printed, 0).unwrap();
    assert_eq!(end, printed.len());
    assert_eq!(back, tree);
}

#[test]
fn names_may_hold_high_bytes() {
    let tree = StringyNode {
        name: Ident(vec![b'n', 0x80, 0xff]),
        properties: vec![(Ident(vec![0xc3, 0xa9]), StringOrSubnode::Str(vec![0xc3, 0xa9]))],
        array: vec![],
    };
    let printed = tree.to_bytes();
    assert_eq!(printed, b"[n\x80\xff \xc3\xa9=\"\\xc3\\xa9\"]".to_vec());
    assert_eq!(StringyNode::from_bytes(&printed), Ok(tree));
}

#[test]
fn canonical_text_is_a_fixed_point() {
    let inputs = [
        "[a   b=\"c\"   \"d\" [e   \"f g\"]  ]",
        "[n \"\\x41\" k=\"\\'\"]",
        "[x y=[z w=[v]]]",
    ];
    for input in inputs {
        let first = parse(input).unwrap();
        let printed = first.to_bytes();
        let second = StringyNode::from_bytes(&printed).unwrap();
        assert_eq!(first, second);
        assert_eq!(second.to_bytes(), printed);
    }
    assert_eq!(parse("[a   b=\"c\"   \"d\" [e   \"f g\"]  ]").unwrap().to_bytes(), b"[a b=c d [e \"f g\"]]".to_vec());
}

#[test]
fn strings_in_build_order() {
    let tree = parse("[a x [b y=1 z] k=v w=[c u]]").unwrap();
    let expected: Vec<Vec<u8>> =
        ["v", "u", "x", "1", "z"].iter().map(|s| s.as_bytes().to_vec()).collect();
    assert_eq!(tree.strings(), expected);
}
