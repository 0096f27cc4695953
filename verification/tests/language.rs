use yial::errors::{Error, EvalError};
use yial::interpreter::{process_line, Interpreter};
use yial::value::{equal_values, Value};

fn run(src: &str) -> Result<Vec<Value>, Error> {
    let mut interp = Interpreter::new();
    process_line(&mut interp, &src.as_bytes().to_vec())
}

fn run1(src: &str) -> Value {
    run(src).unwrap().pop().unwrap()
}

fn eval_err(src: &str) -> EvalError {
    match run(src) {
        Err(Error::Eval(e)) => e,
        other => panic!("expected an evaluation error, got {:?}", other),
    }
}

#[test]
fn addition_promotes_to_real() {
    assert!(matches!(run1("(+ 1 2.5)"), Value::Real(35, 1)));
    assert!(matches!(run1("(= (+ 1 2.5) 3.5)"), Value::Bool(true)));
}

#[test]
fn multiplication_folds() {
    assert!(matches!(run1("(* 2 3 4)"), Value::Int(24)));
    assert!(matches!(run1("(*)"), Value::Int(1)));
    assert!(matches!(run1("(+)"), Value::Int(0)));
}

#[test]
fn subtraction_negates_and_folds() {
    assert!(matches!(run1("(- 5)"), Value::Int(-5)));
    assert!(matches!(run1("(- 10 3 2)"), Value::Int(5)));
    assert_eq!(eval_err("(-)"), EvalError::Arity);
}

#[test]
fn addition_associates_within_a_kind() {
    let left = run1("(+ (+ 1 2) 3)");
    let right = run1("(+ 1 (+ 2 3))");
    assert!(equal_values(&left, &right));
    assert!(matches!(left, Value::Int(6)));
    let rleft = run1("(+ (+ 0.5 0.25) 0.125)");
    let rright = run1("(+ 0.5 (+ 0.25 0.125))");
    assert!(equal_values(&rleft, &rright));
}

#[test]
fn arithmetic_type_errors() {
    assert_eq!(eval_err("(+ 1 \"a\")"), EvalError::WrongType);
    assert_eq!(eval_err("(* 2 nil)"), EvalError::WrongType);
}

#[test]
fn if_picks_one_branch() {
    assert!(matches!(run1("(if true 1 2)"), Value::Int(1)));
    assert!(matches!(run1("(if false 1 2)"), Value::Int(2)));
    assert!(matches!(run1("(if false 1)"), Value::Nil));
}

#[test]
fn truthiness_rules() {
    assert!(matches!(run1("(if 0 1 2)"), Value::Int(2)));
    assert!(matches!(run1("(if 0.0 1 2)"), Value::Int(2)));
    assert!(matches!(run1("(if nil 1 2)"), Value::Int(2)));
    assert!(matches!(run1("(if \"x\" 1 2)"), Value::Int(2)));
    assert!(matches!(run1("(if {1} 1 2)"), Value::Int(2)));
    assert!(matches!(run1("(if 3 1 2)"), Value::Int(1)));
    assert!(matches!(run1("(if 0.5 1 2)"), Value::Int(1)));
}

#[test]
fn and_or_short_circuit() {
    assert!(matches!(run1("(and 1 2 0)"), Value::Bool(false)));
    assert!(matches!(run1("(or false nil 3)"), Value::Bool(true)));
    assert!(matches!(run1("(and)"), Value::Bool(true)));
    assert!(matches!(run1("(or)"), Value::Bool(false)));
    // the operand after the deciding one is never evaluated
    assert!(matches!(run1("(and 0 unbound)"), Value::Bool(false)));
    assert!(matches!(run1("(or 1 unbound)"), Value::Bool(true)));
}

#[test]
fn def_binds_globally() {
    let vs = run("(def x 10) x").unwrap();
    assert!(matches!(vs[0], Value::Int(10)));
    assert!(matches!(vs[1], Value::Int(10)));
}

#[test]
fn global_visible_from_nested_call() {
    let vs = run("(def x 10) (def get (fn () x)) (get)").unwrap();
    assert!(matches!(vs[2], Value::Int(10)));
}

#[test]
fn def_inside_call_persists() {
    let vs = run("((fn () (def y 42))) y").unwrap();
    assert!(matches!(vs[1], Value::Int(42)));
}

#[test]
fn closure_call_and_arity() {
    assert!(matches!(run1("((fn (a b) (+ a b)) 3 4)"), Value::Int(7)));
    assert_eq!(eval_err("((fn (a b) (+ a b)) 3)"), EvalError::Arity);
    assert_eq!(eval_err("((fn (a b) (+ a b)) 3 4 5)"), EvalError::Arity);
}

#[test]
fn call_form_errors() {
    assert_eq!(eval_err("()"), EvalError::EmptyExpr);
    assert_eq!(eval_err("(1 2)"), EvalError::NotCallable);
    assert_eq!(eval_err("x"), EvalError::UnknownSymbol);
    assert_eq!(eval_err("(def x)"), EvalError::Syntax);
    assert_eq!(eval_err("(if true)"), EvalError::Syntax);
    assert_eq!(eval_err("(fn a b)"), EvalError::Syntax);
}

#[test]
fn equality_is_structural() {
    assert!(matches!(run1("(= 1 1 1)"), Value::Bool(true)));
    assert!(matches!(run1("(= 1 1.0)"), Value::Bool(false)));
    assert!(matches!(run1("(= 1)"), Value::Bool(true)));
    assert!(matches!(run1("(= {1 2} {1 2})"), Value::Bool(true)));
    assert!(matches!(run1("(= {a: 1} {a: 1})"), Value::Bool(true)));
    assert!(matches!(run1("(= \"ab\" \"ab\")"), Value::Bool(true)));
    assert!(matches!(run1("(= nil nil)"), Value::Bool(true)));
    assert!(matches!(run1("(= {1 {2 3}} {1 {2 3}})"), Value::Bool(true)));
    assert!(matches!(run1("(= {1 {2 3}} {1 {2 4}})"), Value::Bool(false)));
    assert_eq!(eval_err("(=)"), EvalError::Arity);
}

#[test]
fn equality_is_symmetric_and_reflexive() {
    assert!(matches!(run1("(= 1 2)"), Value::Bool(false)));
    assert!(matches!(run1("(= 2 1)"), Value::Bool(false)));
    assert!(matches!(run1("(= 1.50 1.5)"), Value::Bool(true)));
    let v = run1("{a: {1 2} b: \"s\"}");
    assert!(equal_values(&v, &v));
}

#[test]
fn scopes_balance_across_errors() {
    let mut interp = Interpreter::new();
    process_line(&mut interp, &b"(def f (fn (x) (+ x unknown)))".to_vec()).unwrap();
    let r = process_line(&mut interp, &b"(f 1)".to_vec());
    assert_eq!(r.unwrap_err(), Error::Eval(EvalError::UnknownSymbol));
    // the failed call released its scope: the stack is the global scope alone
    assert_eq!(interp.env.scopes.len(), 1);
    let vs = process_line(&mut interp, &b"(+ 1 2)".to_vec()).unwrap();
    assert!(matches!(vs[0], Value::Int(3)));
    let vs = process_line(&mut interp, &b"(def g 5) g".to_vec()).unwrap();
    assert!(matches!(vs[1], Value::Int(5)));
}

#[test]
fn depth_limit_is_enforced() {
    let mut interp = Interpreter::with_limit(2);
    let r = process_line(&mut interp, &b"(+ (+ 1))".to_vec());
    assert_eq!(r.unwrap_err(), Error::Eval(EvalError::TooDeep));
    assert!(matches!(run1("(+ (+ (+ 1)))"), Value::Int(1)));
}

#[test]
fn dynamic_scoping_at_call_time() {
    // the closure body reads whatever binding is live when it runs
    let vs = run("(def x 1) (def get (fn () x)) (def x 2) (get)").unwrap();
    assert!(matches!(vs[3], Value::Int(2)));
}

#[test]
fn shadowing_is_positional() {
    let vs = run("(def x 1) ((fn (x) x) 9) x").unwrap();
    assert!(matches!(vs[1], Value::Int(9)));
    assert!(matches!(vs[2], Value::Int(1)));
}

#[test]
fn integer_overflow_is_reported() {
    assert_eq!(eval_err("(+ 9223372036854775807 1)"), EvalError::Overflow);
    assert_eq!(eval_err("(* 9223372036854775807 2)"), EvalError::Overflow);
}
