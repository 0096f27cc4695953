use yial::env::Env;
use yial::errors::{Error, EvalError};
use yial::interpreter::{process_line, Interpreter};
use yial::value::{Native, Value};

fn run(src: &str) -> Result<Vec<Value>, Error> {
    let mut interp = Interpreter::new();
    process_line(&mut interp, &src.as_bytes().to_vec())
}

fn run1(src: &str) -> Value {
    run(src).unwrap().pop().unwrap()
}

fn text(src: &str) -> Vec<u8> {
    run1(src).to_string()
}

#[test]
fn echo_writes_operands_and_newline() {
    let mut interp = Interpreter::new();
    let vs = process_line(&mut interp, &b"(echo \"hi\" 1)".to_vec()).unwrap();
    assert!(matches!(vs[0], Value::Nil));
    assert_eq!(interp.out, b"hi1\n".to_vec());
}

#[test]
fn echo_renders_collections() {
    let mut interp = Interpreter::new();
    process_line(&mut interp, &b"(echo {1 2})".to_vec()).unwrap();
    process_line(&mut interp, &b"(echo {:})".to_vec()).unwrap();
    assert_eq!(interp.out, b"{ 1 2 }\n{:}\n".to_vec());
}

#[test]
fn hex_formats_integers() {
    match run1("(hex 255)") {
        Value::Str(s) => assert_eq!(s, b"FF".to_vec()),
        other => panic!("expected a string, got {:?}", other),
    }
    match run1("(hex 0)") {
        Value::Str(s) => assert_eq!(s, b"0".to_vec()),
        other => panic!("expected a string, got {:?}", other),
    }
    match run1("(hex (- 1))") {
        Value::Str(s) => assert_eq!(s, b"FFFFFFFFFFFFFFFF".to_vec()),
        other => panic!("expected a string, got {:?}", other),
    }
}

#[test]
fn hex_argument_errors() {
    match run("(hex 1 2)") {
        Err(Error::Eval(EvalError::Arity)) => {},
        other => panic!("expected an arity error, got {:?}", other),
    }
    match run("(hex \"a\")") {
        Err(Error::Eval(EvalError::WrongType)) => {},
        other => panic!("expected a type error, got {:?}", other),
    }
}

#[test]
fn rendering_of_scalars() {
    assert_eq!(text("42"), b"42".to_vec());
    assert_eq!(text("(- 7)"), b"-7".to_vec());
    assert_eq!(text("true"), b"true".to_vec());
    assert_eq!(text("false"), b"false".to_vec());
    assert_eq!(text("nil"), b"<Nil>".to_vec());
    assert_eq!(text("\"abc\""), b"abc".to_vec());
}

#[test]
fn rendering_of_reals() {
    assert_eq!(text("3.5"), b"3.5".to_vec());
    assert_eq!(text("(+ 0.5 0.5)"), b"1".to_vec());
    assert_eq!(text("0.05"), b"0.05".to_vec());
    assert_eq!(text("(- 2.5)"), b"-2.5".to_vec());
    assert_eq!(text("(+ 1 2.5)"), b"3.5".to_vec());
}

#[test]
fn rendering_of_collections() {
    assert_eq!(text("{1 2}"), b"{ 1 2 }".to_vec());
    assert_eq!(text("{}"), b"{ }".to_vec());
    assert_eq!(text("{:}"), b"{:}".to_vec());
    assert_eq!(text("{a: 1}"), b"{ a: 1 }".to_vec());
    assert_eq!(text("(fn (x) x)"), b"<Fn::Internal>".to_vec());
}

#[test]
fn to_bool_matches_truthiness() {
    assert!(!run1("0").to_bool());
    assert!(run1("7").to_bool());
    assert!(!run1("0.0").to_bool());
    assert!(run1("0.5").to_bool());
    assert!(!run1("nil").to_bool());
    assert!(run1("true").to_bool());
    assert!(!run1("\"x\"").to_bool());
    assert!(!run1("{1}").to_bool());
}

#[test]
fn environment_operations() {
    let mut env = Env::new();
    env.enter();
    env.define(b"x".to_vec(), Value::Int(1));
    env.enter();
    env.define(b"x".to_vec(), Value::Int(2));
    match env.lookup(&b"x".to_vec()) {
        Some(Value::Int(2)) => {},
        other => panic!("expected the inner binding, got {:?}", other),
    }
    env.define_global(b"y".to_vec(), Value::Int(9));
    env.exit();
    match env.lookup(&b"x".to_vec()) {
        Some(Value::Int(1)) => {},
        other => panic!("expected the outer binding, got {:?}", other),
    }
    match env.lookup(&b"y".to_vec()) {
        Some(Value::Int(9)) => {},
        other => panic!("expected the global binding, got {:?}", other),
    }
    assert!(env.lookup(&b"z".to_vec()).is_none());
}

#[test]
fn exposing_a_native_rebinds_a_name() {
    let mut interp = Interpreter::new();
    interp.expose_external_func(b"plus".to_vec(), Native::Add);
    let vs = process_line(&mut interp, &b"(plus 1 2)".to_vec()).unwrap();
    assert!(matches!(vs[0], Value::Int(3)));
}
