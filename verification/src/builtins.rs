//! The native procedures: numeric folds, structural equality, text output
//! and hexadecimal formatting.
//!
//! Each native receives the fully evaluated operand list. `+` and `*` fold
//! over any number of numeric operands with identities 0 and 1, promoting
//! to a real result when kinds mix; `-` negates one operand or left-folds
//! subtraction over two or more; `=` compares all operands to the first;
//! `echo` renders every operand, appends one newline to the output sink and
//! yields nil; `hex` formats one integer in uppercase hexadecimal. Integer
//! arithmetic is checked: a result outside the 64-bit range is an overflow
//! error, as is a real mantissa that no longer fits.

use vstd::prelude::*;

use crate::errors::EvalError;
use crate::numeric::{real_add, real_add_spec, real_mul, real_mul_spec, real_neg, real_neg_spec};
use crate::value::{
    equal_values, lemma_values_view_props, push_all, render_value, u64_to_hex, val_to_bytes,
    values_view, hex_digits, Native, Value, ValueV,
};

verus! {

/// The sum of two numeric values: integers stay integers, a mixed pair is
/// promoted to a real, and a non-numeric operand is a type error.
pub open spec fn num_add2(a: ValueV, b: ValueV) -> Result<ValueV, EvalError> {
    match (a, b) {
        (ValueV::Int(x), ValueV::Int(y)) => if x + y > i64::MAX || x + y < i64::MIN {
            Err(EvalError::Overflow)
        } else {
            Ok(ValueV::Int((x + y) as i64))
        },
        (ValueV::Int(x), ValueV::Real(m, s)) => match real_add_spec(x, 0, m, s) {
            None => Err(EvalError::Overflow),
            Some(r) => Ok(ValueV::Real(r.0, r.1)),
        },
        (ValueV::Real(m, s), ValueV::Int(y)) => match real_add_spec(m, s, y, 0) {
            None => Err(EvalError::Overflow),
            Some(r) => Ok(ValueV::Real(r.0, r.1)),
        },
        (ValueV::Real(m1, s1), ValueV::Real(m2, s2)) => match real_add_spec(m1, s1, m2, s2) {
            None => Err(EvalError::Overflow),
            Some(r) => Ok(ValueV::Real(r.0, r.1)),
        },
        _ => Err(EvalError::WrongType),
    }
}

/// The product of two numeric values, with the same kind rules as the sum.
pub open spec fn num_mul2(a: ValueV, b: ValueV) -> Result<ValueV, EvalError> {
    match (a, b) {
        (ValueV::Int(x), ValueV::Int(y)) => if x * y > i64::MAX || x * y < i64::MIN {
            Err(EvalError::Overflow)
        } else {
            Ok(ValueV::Int((x * y) as i64))
        },
        (ValueV::Int(x), ValueV::Real(m, s)) => match real_mul_spec(x, 0, m, s) {
            None => Err(EvalError::Overflow),
            Some(r) => Ok(ValueV::Real(r.0, r.1)),
        },
        (ValueV::Real(m, s), ValueV::Int(y)) => match real_mul_spec(m, s, y, 0) {
            None => Err(EvalError::Overflow),
            Some(r) => Ok(ValueV::Real(r.0, r.1)),
        },
        (ValueV::Real(m1, s1), ValueV::Real(m2, s2)) => match real_mul_spec(m1, s1, m2, s2) {
            None => Err(EvalError::Overflow),
            Some(r) => Ok(ValueV::Real(r.0, r.1)),
        },
        _ => Err(EvalError::WrongType),
    }
}

/// The difference of two numeric values, with the same kind rules.
pub open spec fn num_sub2(a: ValueV, b: ValueV) -> Result<ValueV, EvalError> {
    match (a, b) {
        (ValueV::Int(x), ValueV::Int(y)) => if x - y > i64::MAX || x - y < i64::MIN {
            Err(EvalError::Overflow)
        } else {
            Ok(ValueV::Int((x - y) as i64))
        },
        (ValueV::Int(x), ValueV::Real(m, s)) => if m == i64::MIN {
            Err(EvalError::Overflow)
        } else {
            match real_add_spec(x, 0, (-m) as i64, s) {
                None => Err(EvalError::Overflow),
                Some(r) => Ok(ValueV::Real(r.0, r.1)),
            }
        },
        (ValueV::Real(m, s), ValueV::Int(y)) => if y == i64::MIN {
            Err(EvalError::Overflow)
        } else {
            match real_add_spec(m, s, (-y) as i64, 0) {
                None => Err(EvalError::Overflow),
                Some(r) => Ok(ValueV::Real(r.0, r.1)),
            }
        },
        (ValueV::Real(m1, s1), ValueV::Real(m2, s2)) => if m2 == i64::MIN {
            Err(EvalError::Overflow)
        } else {
            match real_add_spec(m1, s1, (-m2) as i64, s2) {
                None => Err(EvalError::Overflow),
                Some(r) => Ok(ValueV::Real(r.0, r.1)),
            }
        },
        _ => Err(EvalError::WrongType),
    }
}

/// The negation of one numeric value.
pub open spec fn num_neg(a: ValueV) -> Result<ValueV, EvalError> {
    match a {
        ValueV::Int(x) => if x == i64::MIN {
            Err(EvalError::Overflow)
        } else {
            Ok(ValueV::Int((-x) as i64))
        },
        ValueV::Real(m, s) => match real_neg_spec(m, s) {
            None => Err(EvalError::Overflow),
            Some(r) => Ok(ValueV::Real(r.0, r.1)),
        },
        _ => Err(EvalError::WrongType),
    }
}

/// Left fold of the sum over the operands.
pub open spec fn fold_add(args: Seq<ValueV>, acc: ValueV) -> Result<ValueV, EvalError>
    decreases args.len(),
{
    if args.len() == 0 {
        Ok(acc)
    } else {
        match num_add2(acc, args[0]) {
            Err(e) => Err(e),
            Ok(a2) => fold_add(args.drop_first(), a2),
        }
    }
}

/// Left fold of the product over the operands.
pub open spec fn fold_mul(args: Seq<ValueV>, acc: ValueV) -> Result<ValueV, EvalError>
    decreases args.len(),
{
    if args.len() == 0 {
        Ok(acc)
    } else {
        match num_mul2(acc, args[0]) {
            Err(e) => Err(e),
            Ok(a2) => fold_mul(args.drop_first(), a2),
        }
    }
}

/// Left fold of the difference over the operands.
pub open spec fn fold_sub(args: Seq<ValueV>, acc: ValueV) -> Result<ValueV, EvalError>
    decreases args.len(),
{
    if args.len() == 0 {
        Ok(acc)
    } else {
        match num_sub2(acc, args[0]) {
            Err(e) => Err(e),
            Ok(a2) => fold_sub(args.drop_first(), a2),
        }
    }
}

/// What `+` returns: the sum of all operands, starting from the integer 0.
pub open spec fn add_spec(args: Seq<ValueV>) -> Result<ValueV, EvalError> {
    fold_add(args, ValueV::Int(0))
}

/// What `*` returns: the product of all operands, starting from the
/// integer 1.
pub open spec fn mul_spec(args: Seq<ValueV>) -> Result<ValueV, EvalError> {
    fold_mul(args, ValueV::Int(1))
}

/// What `-` returns: with one operand its negation, with two or more the
/// left fold of subtraction, and with none an arity error.
pub open spec fn sub_spec(args: Seq<ValueV>) -> Result<ValueV, EvalError> {
    if args.len() == 0 {
        Err(EvalError::Arity)
    } else if args.len() == 1 {
        num_neg(args[0])
    } else {
        match args[0] {
            ValueV::Int(x) => fold_sub(args.drop_first(), args[0]),
            ValueV::Real(m, s) => fold_sub(args.drop_first(), args[0]),
            _ => Err(EvalError::WrongType),
        }
    }
}

/// Whether every operand equals the first one.
pub open spec fn all_equal_first(args: Seq<ValueV>) -> bool {
    forall|i: int| 0 <= i < args.len() ==> #[trigger] args[i] == args[0]
}

/// What `=` returns: whether all operands are structurally equal; at least
/// one operand is required.
pub open spec fn equals_spec(args: Seq<ValueV>) -> Result<ValueV, EvalError> {
    if args.len() == 0 {
        Err(EvalError::Arity)
    } else {
        Ok(ValueV::Bool(all_equal_first(args)))
    }
}

/// The two's-complement image of a signed number as an unsigned one.
pub open spec fn i64_bits(i: i64) -> int {
    if i < 0 {
        i + 0x10000000000000000
    } else {
        i as int
    }
}

/// What `hex` returns: the uppercase hexadecimal text of its one integer
/// operand's two's-complement bits.
pub open spec fn hex_spec(args: Seq<ValueV>) -> Result<ValueV, EvalError> {
    if args.len() != 1 {
        Err(EvalError::Arity)
    } else {
        match args[0] {
            ValueV::Int(i) => Ok(ValueV::Str(u64_to_hex(i64_bits(i)))),
            _ => Err(EvalError::WrongType),
        }
    }
}

/// The renderings of the operands, run together.
pub open spec fn render_args(args: Seq<ValueV>) -> Seq<u8>
    decreases args.len(),
{
    if args.len() == 0 {
        Seq::empty()
    } else {
        val_to_bytes(args[0]) + render_args(args.drop_first())
    }
}

/// What `echo` writes: every operand rendered in order, then one newline.
pub open spec fn echo_out(args: Seq<ValueV>, out: Seq<u8>) -> Seq<u8> {
    out + render_args(args) + seq![0x0au8]
}

/// What a native call returns and writes.
pub open spec fn apply_native(f: Native, args: Seq<ValueV>, out: Seq<u8>) -> (
    Result<ValueV, EvalError>,
    Seq<u8>,
) {
    match f {
        Native::Add => (add_spec(args), out),
        Native::Mul => (mul_spec(args), out),
        Native::Sub => (sub_spec(args), out),
        Native::Equals => (equals_spec(args), out),
        Native::Hex => (hex_spec(args), out),
        Native::Echo => (Ok(ValueV::Nil), echo_out(args, out)),
    }
}

/// Adds two numeric values.
fn add2_exec(acc: Value, x: &Value) -> (r: Result<Value, EvalError>)
    ensures
        match (r, num_add2(acc@, x@)) {
            (Ok(v), Ok(vv)) => v@ == vv,
            (Err(e1), Err(e2)) => e1 == e2,
            _ => false,
        },
{
    match (acc, x) {
        (Value::Int(a), Value::Int(b)) => match a.checked_add(*b) {
            Some(s) => Ok(Value::Int(s)),
            None => Err(EvalError::Overflow),
        },
        (Value::Int(a), Value::Real(m, s)) => match real_add(a, 0, *m, *s) {
            Some(r) => Ok(Value::Real(r.0, r.1)),
            None => Err(EvalError::Overflow),
        },
        (Value::Real(m, s), Value::Int(b)) => match real_add(m, s, *b, 0) {
            Some(r) => Ok(Value::Real(r.0, r.1)),
            None => Err(EvalError::Overflow),
        },
        (Value::Real(m1, s1), Value::Real(m2, s2)) => match real_add(m1, s1, *m2, *s2) {
            Some(r) => Ok(Value::Real(r.0, r.1)),
            None => Err(EvalError::Overflow),
        },
        _ => Err(EvalError::WrongType),
    }
}

/// Multiplies two numeric values.
fn mul2_exec(acc: Value, x: &Value) -> (r: Result<Value, EvalError>)
    ensures
        match (r, num_mul2(acc@, x@)) {
            (Ok(v), Ok(vv)) => v@ == vv,
            (Err(e1), Err(e2)) => e1 == e2,
            _ => false,
        },
{
    match (acc, x) {
        (Value::Int(a), Value::Int(b)) => match a.checked_mul(*b) {
            Some(s) => Ok(Value::Int(s)),
            None => Err(EvalError::Overflow),
        },
        (Value::Int(a), Value::Real(m, s)) => match real_mul(a, 0, *m, *s) {
            Some(r) => Ok(Value::Real(r.0, r.1)),
            None => Err(EvalError::Overflow),
        },
        (Value::Real(m, s), Value::Int(b)) => match real_mul(m, s, *b, 0) {
            Some(r) => Ok(Value::Real(r.0, r.1)),
            None => Err(EvalError::Overflow),
        },
        (Value::Real(m1, s1), Value::Real(m2, s2)) => match real_mul(m1, s1, *m2, *s2) {
            Some(r) => Ok(Value::Real(r.0, r.1)),
            None => Err(EvalError::Overflow),
        },
        _ => Err(EvalError::WrongType),
    }
}

/// Subtracts one numeric value from another.
fn sub2_exec(acc: Value, x: &Value) -> (r: Result<Value, EvalError>)
    ensures
        match (r, num_sub2(acc@, x@)) {
            (Ok(v), Ok(vv)) => v@ == vv,
            (Err(e1), Err(e2)) => e1 == e2,
            _ => false,
        },
{
    match (acc, x) {
        (Value::Int(a), Value::Int(b)) => match a.checked_sub(*b) {
            Some(s) => Ok(Value::Int(s)),
            None => Err(EvalError::Overflow),
        },
        (Value::Int(a), Value::Real(m, s)) => {
            if *m == i64::MIN {
                return Err(EvalError::Overflow);
            }
            match real_add(a, 0, -*m, *s) {
                Some(r) => Ok(Value::Real(r.0, r.1)),
                None => Err(EvalError::Overflow),
            }
        },
        (Value::Real(m, s), Value::Int(b)) => {
            if *b == i64::MIN {
                return Err(EvalError::Overflow);
            }
            match real_add(m, s, -*b, 0) {
                Some(r) => Ok(Value::Real(r.0, r.1)),
                None => Err(EvalError::Overflow),
            }
        },
        (Value::Real(m1, s1), Value::Real(m2, s2)) => {
            if *m2 == i64::MIN {
                return Err(EvalError::Overflow);
            }
            match real_add(m1, s1, -*m2, *s2) {
                Some(r) => Ok(Value::Real(r.0, r.1)),
                None => Err(EvalError::Overflow),
            }
        },
        _ => Err(EvalError::WrongType),
    }
}

/// Folds `+` over the evaluated operands.
#[verifier::loop_isolation(false)]
pub fn add(args: &Vec<Value>) -> (r: Result<Value, EvalError>)
    ensures
        match (r, add_spec(values_view(args@))) {
            (Ok(v), Ok(vv)) => v@ == vv,
            (Err(e1), Err(e2)) => e1 == e2,
            _ => false,
        },
{
    let ghost av = values_view(args@);
    proof {
        lemma_values_view_props(args@);
        assert(av.skip(0) =~= av);
    }
    let mut acc = Value::Int(0);
    let mut i: usize = 0;
    while i < args.len()
        invariant
            0 <= i <= args@.len(),
            add_spec(av) == fold_add(av.skip(i as int), acc@),
        decreases args@.len() - i,
    {
        proof {
            assert(av.skip(i as int)[0] == av[i as int]);
            assert(av.skip(i as int).drop_first() =~= av.skip(i + 1));
        }
        acc = match add2_exec(acc, &args[i]) {
            Ok(v) => v,
            Err(e) => {
                return Err(e);
            },
        };
        i = i + 1;
    }
    assert(av.skip(args@.len() as int) =~= Seq::<ValueV>::empty());
    Ok(acc)
}

/// Folds `*` over the evaluated operands.
#[verifier::loop_isolation(false)]
pub fn mul(args: &Vec<Value>) -> (r: Result<Value, EvalError>)
    ensures
        match (r, mul_spec(values_view(args@))) {
            (Ok(v), Ok(vv)) => v@ == vv,
            (Err(e1), Err(e2)) => e1 == e2,
            _ => false,
        },
{
    let ghost av = values_view(args@);
    proof {
        lemma_values_view_props(args@);
        assert(av.skip(0) =~= av);
    }
    let mut acc = Value::Int(1);
    let mut i: usize = 0;
    while i < args.len()
        invariant
            0 <= i <= args@.len(),
            mul_spec(av) == fold_mul(av.skip(i as int), acc@),
        decreases args@.len() - i,
    {
        proof {
            assert(av.skip(i as int)[0] == av[i as int]);
            assert(av.skip(i as int).drop_first() =~= av.skip(i + 1));
        }
        acc = match mul2_exec(acc, &args[i]) {
            Ok(v) => v,
            Err(e) => {
                return Err(e);
            },
        };
        i = i + 1;
    }
    assert(av.skip(args@.len() as int) =~= Seq::<ValueV>::empty());
    Ok(acc)
}

/// Negates one operand, or folds subtraction over two or more.
#[verifier::loop_isolation(false)]
pub fn sub(args: &Vec<Value>) -> (r: Result<Value, EvalError>)
    ensures
        match (r, sub_spec(values_view(args@))) {
            (Ok(v), Ok(vv)) => v@ == vv,
            (Err(e1), Err(e2)) => e1 == e2,
            _ => false,
        },
{
    let ghost av = values_view(args@);
    proof {
        lemma_values_view_props(args@);
    }
    if args.len() == 0 {
        return Err(EvalError::Arity);
    }
    if args.len() == 1 {
        return match &args[0] {
            Value::Int(x) => {
                if *x == i64::MIN {
                    Err(EvalError::Overflow)
                } else {
                    Ok(Value::Int(-*x))
                }
            },
            Value::Real(m, s) => match real_neg(*m, *s) {
                Some(r) => Ok(Value::Real(r.0, r.1)),
                None => Err(EvalError::Overflow),
            },
            _ => Err(EvalError::WrongType),
        };
    }
    let first = match &args[0] {
        Value::Int(x) => Value::Int(*x),
        Value::Real(m, s) => Value::Real(*m, *s),
        _ => {
            return Err(EvalError::WrongType);
        },
    };
    let mut acc = first;
    let mut i: usize = 1;
    proof {
        assert(av.skip(1) =~= av.drop_first());
    }
    while i < args.len()
        invariant
            1 <= i <= args@.len(),
            sub_spec(av) == fold_sub(av.skip(i as int), acc@),
        decreases args@.len() - i,
    {
        proof {
            assert(av.skip(i as int)[0] == av[i as int]);
            assert(av.skip(i as int).drop_first() =~= av.skip(i + 1));
        }
        acc = match sub2_exec(acc, &args[i]) {
            Ok(v) => v,
            Err(e) => {
                return Err(e);
            },
        };
        i = i + 1;
    }
    assert(av.skip(args@.len() as int) =~= Seq::<ValueV>::empty());
    Ok(acc)
}

/// Compares every operand to the first; at least one operand is required.
#[verifier::loop_isolation(false)]
pub fn equals(args: &Vec<Value>) -> (r: Result<Value, EvalError>)
    ensures
        match (r, equals_spec(values_view(args@))) {
            (Ok(v), Ok(vv)) => v@ == vv,
            (Err(e1), Err(e2)) => e1 == e2,
            _ => false,
        },
{
    let ghost av = values_view(args@);
    proof {
        lemma_values_view_props(args@);
    }
    if args.len() == 0 {
        return Err(EvalError::Arity);
    }
    let mut i: usize = 1;
    while i < args.len()
        invariant
            1 <= i <= args@.len(),
            forall|j: int| 0 <= j < i ==> #[trigger] av[j] == av[0],
        decreases args@.len() - i,
    {
        if !equal_values(&args[0], &args[i]) {
            proof {
                assert(av[i as int] != av[0]);
                assert(!all_equal_first(av));
            }
            return Ok(Value::Bool(false));
        }
        i = i + 1;
    }
    proof {
        assert(all_equal_first(av));
    }
    Ok(Value::Bool(true))
}

/// Renders every operand to the output sink, then one newline, and yields
/// nil.
#[verifier::loop_isolation(false)]
pub fn echo(args: &Vec<Value>, out: &mut Vec<u8>) -> (r: Value)
    ensures
        r@ == ValueV::Nil,
        final(out)@ == echo_out(values_view(args@), old(out)@),
{
    let ghost av = values_view(args@);
    proof {
        lemma_values_view_props(args@);
        assert(av.skip(0) =~= av);
        assert(old(out)@ + Seq::<u8>::empty() =~= old(out)@);
    }
    let mut i: usize = 0;
    while i < args.len()
        invariant
            0 <= i <= args@.len(),
            old(out)@ + render_args(av) == out@ + render_args(av.skip(i as int)),
        decreases args@.len() - i,
    {
        let piece = render_value(&args[i]);
        proof {
            assert(av.skip(i as int)[0] == av[i as int]);
            assert(av.skip(i as int).drop_first() =~= av.skip(i + 1));
            let rest = render_args(av.skip(i + 1));
            assert(out@ + (val_to_bytes(av[i as int]) + rest) =~= (out@ + val_to_bytes(
                av[i as int],
            )) + rest);
        }
        push_all(out, &piece);
        i = i + 1;
    }
    proof {
        assert(av.skip(args@.len() as int) =~= Seq::<ValueV>::empty());
        assert(out@ + Seq::<u8>::empty() =~= out@);
    }
    out.push(0x0a);
    proof {
        assert(out@ =~= old(out)@ + render_args(av) + seq![0x0au8]);
    }
    Value::Nil
}

/// Formats one integer operand in uppercase hexadecimal.
pub fn hex(args: &Vec<Value>) -> (r: Result<Value, EvalError>)
    ensures
        match (r, hex_spec(values_view(args@))) {
            (Ok(v), Ok(vv)) => v@ == vv,
            (Err(e1), Err(e2)) => e1 == e2,
            _ => false,
        },
{
    proof {
        lemma_values_view_props(args@);
    }
    if args.len() != 1 {
        return Err(EvalError::Arity);
    }
    match &args[0] {
        Value::Int(i) => {
            let bits: u64 = if *i >= 0 {
                *i as u64
            } else {
                let a = crate::value::abs_u64(*i);
                (u64::MAX - a) + 1
            };
            assert(bits as int == i64_bits(*i));
            Ok(Value::Str(hex_digits(bits)))
        },
        _ => Err(EvalError::WrongType),
    }
}

/// Runs one native procedure on the evaluated operands.
pub fn run_native(f: Native, args: &Vec<Value>, out: &mut Vec<u8>) -> (r: Result<Value, EvalError>)
    ensures
        ({
            let (rv, out2) = apply_native(f, values_view(args@), old(out)@);
            final(out)@ == out2 && (match (r, rv) {
                (Ok(v), Ok(vv)) => v@ == vv,
                (Err(e1), Err(e2)) => e1 == e2,
                _ => false,
            })
        }),
{
    match f {
        Native::Add => crate::builtins::add(args),
        Native::Mul => crate::builtins::mul(args),
        Native::Sub => crate::builtins::sub(args),
        Native::Equals => crate::builtins::equals(args),
        Native::Hex => crate::builtins::hex(args),
        Native::Echo => Ok(crate::builtins::echo(args, out)),
    }
}

/// Addition of integers is associative: wherever both groupings of three
/// integer operands stay in range, they give one and the same sum.
pub proof fn lemma_add_assoc_int(a: i64, b: i64, c: i64)
    requires
        i64::MIN <= a + b <= i64::MAX,
        i64::MIN <= b + c <= i64::MAX,
        i64::MIN <= a + b + c <= i64::MAX,
    ensures
        num_add2(ValueV::Int(a), ValueV::Int(b)) == Ok::<ValueV, EvalError>(
            ValueV::Int((a + b) as i64),
        ),
        num_add2(ValueV::Int(b), ValueV::Int(c)) == Ok::<ValueV, EvalError>(
            ValueV::Int((b + c) as i64),
        ),
        num_add2(ValueV::Int((a + b) as i64), ValueV::Int(c)) == num_add2(
            ValueV::Int(a),
            ValueV::Int((b + c) as i64),
        ),
        num_add2(ValueV::Int((a + b) as i64), ValueV::Int(c)) == Ok::<ValueV, EvalError>(
            ValueV::Int((a + b + c) as i64),
        ),
{
}

/// Multiplication of integers is associative: wherever both groupings of
/// three integer operands stay in range, they give one and the same
/// product.
pub proof fn lemma_mul_assoc_int(a: i64, b: i64, c: i64)
    requires
        i64::MIN <= a * b <= i64::MAX,
        i64::MIN <= b * c <= i64::MAX,
        i64::MIN <= (a * b) * c <= i64::MAX,
    ensures
        num_mul2(ValueV::Int((a * b) as i64), ValueV::Int(c)) == num_mul2(
            ValueV::Int(a),
            ValueV::Int((b * c) as i64),
        ),
        num_mul2(ValueV::Int((a * b) as i64), ValueV::Int(c)) == Ok::<ValueV, EvalError>(
            ValueV::Int(((a * b) * c) as i64),
        ),
{
    vstd::arithmetic::mul::lemma_mul_is_associative(a as int, b as int, c as int);
}


/// Addition of reals is associative: wherever both groupings of three real
/// operands are representable, they give one and the same result.
pub proof fn lemma_add_assoc_real(
    m1: i64,
    s1: u64,
    m2: i64,
    s2: u64,
    m3: i64,
    s3: u64,
    mab: i64,
    sab: u64,
    ml: i64,
    sl: u64,
    mbc: i64,
    sbc: u64,
    mr: i64,
    sr: u64,
)
    requires
        num_add2(ValueV::Real(m1, s1), ValueV::Real(m2, s2)) == Ok::<ValueV, EvalError>(
            ValueV::Real(mab, sab),
        ),
        num_add2(ValueV::Real(mab, sab), ValueV::Real(m3, s3)) == Ok::<ValueV, EvalError>(
            ValueV::Real(ml, sl),
        ),
        num_add2(ValueV::Real(m2, s2), ValueV::Real(m3, s3)) == Ok::<ValueV, EvalError>(
            ValueV::Real(mbc, sbc),
        ),
        num_add2(ValueV::Real(m1, s1), ValueV::Real(mbc, sbc)) == Ok::<ValueV, EvalError>(
            ValueV::Real(mr, sr),
        ),
    ensures
        ml == mr,
        sl == sr,
{
    crate::numeric::lemma_real_add_assoc(
        m1,
        s1,
        m2,
        s2,
        m3,
        s3,
        mab,
        sab,
        ml,
        sl,
        mbc,
        sbc,
        mr,
        sr,
    );
}

/// Multiplication of reals is associative: wherever both groupings of
/// three real operands are representable, they give one and the same
/// result.
pub proof fn lemma_mul_assoc_real(
    m1: i64,
    s1: u64,
    m2: i64,
    s2: u64,
    m3: i64,
    s3: u64,
    mab: i64,
    sab: u64,
    ml: i64,
    sl: u64,
    mbc: i64,
    sbc: u64,
    mr: i64,
    sr: u64,
)
    requires
        num_mul2(ValueV::Real(m1, s1), ValueV::Real(m2, s2)) == Ok::<ValueV, EvalError>(
            ValueV::Real(mab, sab),
        ),
        num_mul2(ValueV::Real(mab, sab), ValueV::Real(m3, s3)) == Ok::<ValueV, EvalError>(
            ValueV::Real(ml, sl),
        ),
        num_mul2(ValueV::Real(m2, s2), ValueV::Real(m3, s3)) == Ok::<ValueV, EvalError>(
            ValueV::Real(mbc, sbc),
        ),
        num_mul2(ValueV::Real(m1, s1), ValueV::Real(mbc, sbc)) == Ok::<ValueV, EvalError>(
            ValueV::Real(mr, sr),
        ),
    ensures
        ml == mr,
        sl == sr,
{
    crate::numeric::lemma_real_mul_assoc(
        m1,
        s1,
        m2,
        s2,
        m3,
        s3,
        mab,
        sab,
        ml,
        sl,
        mbc,
        sbc,
        mr,
        sr,
    );
}

} // verus!
