use yial::errors::{Error, LexError, ParseError};
use yial::interpreter::{process_line, Interpreter};
use yial::parser::{Node, Parser};
use yial::tokenizer::{is_symbolchar, Token, Tokenizer};
use yial::value::Value;

fn run(src: &str) -> Result<Vec<Value>, Error> {
    let mut interp = Interpreter::new();
    process_line(&mut interp, &src.as_bytes().to_vec())
}

fn run1(src: &str) -> Value {
    run(src).unwrap().pop().unwrap()
}

fn lex(src: &str) -> Result<Vec<Token>, LexError> {
    Tokenizer::new(src.as_bytes().to_vec()).collect()
}

fn parse(src: &str) -> Result<Vec<Node>, ParseError> {
    Parser::new(lex(src).unwrap()).collect()
}

#[test]
fn numeric_literal_forms() {
    assert!(matches!(run1("0"), Value::Int(0)));
    assert!(matches!(run1("123"), Value::Int(123)));
    assert!(matches!(run1("1.5"), Value::Real(15, 1)));
    assert!(matches!(run1("0.5"), Value::Real(5, 1)));
    assert!(matches!(run1("0x1F"), Value::Int(31)));
    assert!(matches!(run1("0o17"), Value::Int(15)));
    assert!(matches!(run1("0b101"), Value::Int(5)));
}

#[test]
fn real_literals_are_normalized() {
    assert!(matches!(run1("1.50"), Value::Real(15, 1)));
    assert!(matches!(run1("2.0"), Value::Real(2, 0)));
    assert!(matches!(run1("0.05"), Value::Real(5, 2)));
}

#[test]
fn reserved_words() {
    assert!(matches!(run1("true"), Value::Bool(true)));
    assert!(matches!(run1("false"), Value::Bool(false)));
    assert!(matches!(run1("nil"), Value::Nil));
}

#[test]
fn comments_and_whitespace_are_elided() {
    let vs = run("; a comment\n 42 ; trailing\n").unwrap();
    assert_eq!(vs.len(), 1);
    assert!(matches!(vs[0], Value::Int(42)));
}

#[test]
fn string_escapes() {
    let v = run1("\"a\\n\\tb\\\\\\\"\"");
    match v {
        Value::Str(s) => assert_eq!(s, b"a\n\tb\\\"".to_vec()),
        other => panic!("expected a string, got {:?}", other),
    }
}

#[test]
fn lex_errors() {
    assert_eq!(lex("\"abc").unwrap_err(), LexError::UnterminatedString);
    assert_eq!(lex("\"a\\q\"").unwrap_err(), LexError::UnescapableChar);
    assert_eq!(lex("0x").unwrap_err(), LexError::MalformedNumber);
    assert_eq!(lex("1.2.3").unwrap_err(), LexError::MalformedNumber);
    assert_eq!(lex("1.").unwrap_err(), LexError::MalformedNumber);
    assert_eq!(lex("99999999999999999999").unwrap_err(), LexError::MalformedNumber);
    assert_eq!(
        Tokenizer::new(vec![0x07]).collect().unwrap_err(),
        LexError::IllegalChar
    );
}

#[test]
fn zero_prefixed_digits_split() {
    let vs = run("07").unwrap();
    assert_eq!(vs.len(), 2);
    assert!(matches!(vs[0], Value::Int(0)));
    assert!(matches!(vs[1], Value::Int(7)));
}

#[test]
fn symbol_characters() {
    assert!(is_symbolchar(b'a'));
    assert!(is_symbolchar(b'+'));
    assert!(is_symbolchar(b'.'));
    assert!(!is_symbolchar(b'('));
    assert!(!is_symbolchar(b')'));
    assert!(!is_symbolchar(b'{'));
    assert!(!is_symbolchar(b'}'));
    assert!(!is_symbolchar(b':'));
    assert!(!is_symbolchar(b';'));
    assert!(!is_symbolchar(b' '));
    assert!(!is_symbolchar(0x80));
}

#[test]
fn braces_parse_to_list_value() {
    match run1("{1 2 3}") {
        Value::List(items) => {
            assert_eq!(items.len(), 3);
            assert!(matches!(items[0], Value::Int(1)));
            assert!(matches!(items[2], Value::Int(3)));
        },
        other => panic!("expected a list, got {:?}", other),
    }
}

#[test]
fn braces_with_pairs_parse_to_map_value() {
    match run1("{a: 1 b: 2}") {
        Value::Mapping(entries) => {
            assert_eq!(entries.len(), 2);
            assert_eq!(entries[0].0, b"a".to_vec());
            assert!(matches!(entries[0].1, Value::Int(1)));
            assert_eq!(entries[1].0, b"b".to_vec());
            assert!(matches!(entries[1].1, Value::Int(2)));
        },
        other => panic!("expected a map, got {:?}", other),
    }
}

#[test]
fn empty_collection_literals() {
    match run1("{:}") {
        Value::Mapping(entries) => assert_eq!(entries.len(), 0),
        other => panic!("expected a map, got {:?}", other),
    }
    match run1("{}") {
        Value::List(items) => assert_eq!(items.len(), 0),
        other => panic!("expected a list, got {:?}", other),
    }
}

#[test]
fn repeated_map_keys_keep_the_last_value() {
    match run1("{a: 1 a: 2}") {
        Value::Mapping(entries) => {
            assert_eq!(entries.len(), 1);
            assert!(matches!(entries[0].1, Value::Int(2)));
        },
        other => panic!("expected a map, got {:?}", other),
    }
}

#[test]
fn mixed_collection_literals_are_rejected() {
    assert_eq!(parse("{1 2 b: 3}").unwrap_err(), ParseError::UnexpectedToken);
    assert_eq!(parse("{a: 1 2}").unwrap_err(), ParseError::IllegalMap);
    assert_eq!(parse("{: 1}").unwrap_err(), ParseError::IllegalCollection);
    assert_eq!(parse("{1: 2}").unwrap_err(), ParseError::IllegalCollection);
}

#[test]
fn truncated_constructs_are_rejected() {
    assert_eq!(parse("(+ 1").unwrap_err(), ParseError::UnexpectedEnd);
    assert_eq!(parse("{1 2").unwrap_err(), ParseError::UnexpectedEnd);
    assert_eq!(parse("{a: 1").unwrap_err(), ParseError::UnexpectedEnd);
    assert_eq!(parse(")").unwrap_err(), ParseError::UnexpectedToken);
}

#[test]
fn map_values_are_evaluated_not_keys() {
    match run1("{a: (+ 1 2)}") {
        Value::Mapping(entries) => {
            assert_eq!(entries[0].0, b"a".to_vec());
            assert!(matches!(entries[0].1, Value::Int(3)));
        },
        other => panic!("expected a map, got {:?}", other),
    }
}

#[test]
fn nested_expressions_parse() {
    let nodes = parse("(a (b {1 2} {c: (d)}))").unwrap();
    assert_eq!(nodes.len(), 1);
    assert!(matches!(nodes[0], Node::Expr(_)));
}
