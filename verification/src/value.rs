//! Runtime values and their mathematical images, truthiness, structural
//! equality, and rendering to text.

use vstd::prelude::*;

use crate::assoc::bytes_eq;
use crate::parser::{
    copy_bytes, nodes_clone, nodes_equal, nodes_view, NodeV, Node,
};

verus! {

/// A native procedure of the interpreter's closed builtin set.
#[derive(Debug, Clone, Copy, PartialEq, Eq, Structural)]
pub enum Native {
    Add,
    Mul,
    Sub,
    Equals,
    Echo,
    Hex,
}

/// One runtime value. A real number is a normalized decimal pair; a closure
/// holds its parameter names and body forms and no environment.
#[derive(Debug)]
pub enum Value {
    Str(Vec<u8>),
    Int(i64),
    Real(i64, u64),
    Bool(bool),
    Nil,
    List(Vec<Value>),
    Mapping(Vec<(Vec<u8>, Value)>),
    Func(Vec<Vec<u8>>, Vec<Node>),
    ExternalFn(Native),
}

/// Mathematical image of a `Value`.
pub enum ValueV {
    Str(Seq<u8>),
    Int(i64),
    Real(i64, u64),
    Bool(bool),
    Nil,
    List(Seq<ValueV>),
    Mapping(Seq<(Seq<u8>, ValueV)>),
    Func(Seq<Seq<u8>>, Seq<NodeV>),
    ExternalFn(Native),
}

/// The image of a sequence of byte strings.
pub open spec fn strs_view(ss: Seq<Vec<u8>>) -> Seq<Seq<u8>>
    decreases ss,
{
    if ss.len() == 0 {
        Seq::empty()
    } else {
        seq![ss[0]@] + strs_view(ss.drop_first())
    }
}

/// The image of one value.
pub open spec fn value_view(v: Value) -> ValueV
    decreases v,
{
    match v {
        Value::Str(s) => ValueV::Str(s@),
        Value::Int(i) => ValueV::Int(i),
        Value::Real(m, sc) => ValueV::Real(m, sc),
        Value::Bool(b) => ValueV::Bool(b),
        Value::Nil => ValueV::Nil,
        Value::List(ch) => ValueV::List(values_view(ch@)),
        Value::Mapping(en) => ValueV::Mapping(value_entries_view(en@)),
        Value::Func(ps, body) => ValueV::Func(strs_view(ps@), nodes_view(body@)),
        Value::ExternalFn(f) => ValueV::ExternalFn(f),
    }
}

/// The image of a sequence of values.
pub open spec fn values_view(vs: Seq<Value>) -> Seq<ValueV>
    decreases vs,
{
    if vs.len() == 0 {
        Seq::empty()
    } else {
        seq![value_view(vs[0])] + values_view(vs.drop_first())
    }
}

/// The image of a sequence of map bindings.
pub open spec fn value_entries_view(en: Seq<(Vec<u8>, Value)>) -> Seq<(Seq<u8>, ValueV)>
    decreases en,
{
    if en.len() == 0 {
        Seq::empty()
    } else {
        seq![(en[0].0@, value_view(en[0].1))] + value_entries_view(en.drop_first())
    }
}

impl View for Value {
    type V = ValueV;

    open spec fn view(&self) -> ValueV {
        value_view(*self)
    }
}

/// The image of a value sequence is pointwise the image of its values.
pub proof fn lemma_values_view_props(vs: Seq<Value>)
    ensures
        values_view(vs).len() == vs.len(),
        forall|i: int| 0 <= i < vs.len() ==> values_view(vs)[i] == value_view(vs[i]),
    decreases vs.len(),
{
    if vs.len() > 0 {
        lemma_values_view_props(vs.drop_first());
    }
}

/// The image of a binding sequence is pointwise the image of its bindings.
pub proof fn lemma_value_entries_view_props(en: Seq<(Vec<u8>, Value)>)
    ensures
        value_entries_view(en).len() == en.len(),
        forall|i: int|
            0 <= i < en.len() ==> value_entries_view(en)[i] == (en[i].0@, value_view(en[i].1)),
    decreases en.len(),
{
    if en.len() > 0 {
        lemma_value_entries_view_props(en.drop_first());
    }
}

/// The image of a byte-string sequence is pointwise the image of its
/// elements.
pub proof fn lemma_strs_view_props(ss: Seq<Vec<u8>>)
    ensures
        strs_view(ss).len() == ss.len(),
        forall|i: int| 0 <= i < ss.len() ==> strs_view(ss)[i] == ss[i]@,
    decreases ss.len(),
{
    if ss.len() > 0 {
        lemma_strs_view_props(ss.drop_first());
    }
}

/// The boolean a value coerces to: a boolean is itself, nil is false, a
/// number is true exactly when nonzero, and every other kind is false.
pub open spec fn truthy(v: ValueV) -> bool {
    match v {
        ValueV::Bool(b) => b,
        ValueV::Nil => false,
        ValueV::Int(i) => i != 0,
        ValueV::Real(m, sc) => m != 0,
        _ => false,
    }
}

/// Copies a sequence of byte strings.
#[verifier::loop_isolation(false)]
pub fn strs_clone(ss: &Vec<Vec<u8>>) -> (r: Vec<Vec<u8>>)
    ensures
        strs_view(r@) == strs_view(ss@),
{
    let mut out: Vec<Vec<u8>> = Vec::new();
    let mut i: usize = 0;
    while i < ss.len()
        invariant
            0 <= i <= ss@.len(),
            out@.len() == i,
            forall|j: int| 0 <= j < i ==> out@[j]@ == ss@[j]@,
        decreases ss@.len() - i,
    {
        let c = copy_bytes(&ss[i]);
        out.push(c);
        i = i + 1;
    }
    proof {
        lemma_strs_view_props(out@);
        lemma_strs_view_props(ss@);
        assert(strs_view(out@) =~= strs_view(ss@));
    }
    out
}

/// Copies one value.
#[verifier::loop_isolation(false)]
pub fn value_clone(v: &Value) -> (r: Value)
    ensures
        r@ == v@,
    decreases v,
{
    match v {
        Value::Str(s) => Value::Str(copy_bytes(s)),
        Value::Int(i) => Value::Int(*i),
        Value::Real(m, sc) => Value::Real(*m, *sc),
        Value::Bool(b) => Value::Bool(*b),
        Value::Nil => Value::Nil,
        Value::List(ch) => {
            let mut out: Vec<Value> = Vec::new();
            let mut i: usize = 0;
            while i < ch.len()
                invariant
                    0 <= i <= ch@.len(),
                    out@.len() == i,
                    forall|j: int| 0 <= j < i ==> value_view(out@[j]) == value_view(ch@[j]),
                decreases ch@.len() - i,
            {
                let c = value_clone(&ch[i]);
                out.push(c);
                i = i + 1;
            }
            proof {
                lemma_values_view_props(out@);
                lemma_values_view_props(ch@);
                assert(values_view(out@) =~= values_view(ch@));
            }
            Value::List(out)
        },
        Value::Mapping(en) => {
            let mut out: Vec<(Vec<u8>, Value)> = Vec::new();
            let mut i: usize = 0;
            while i < en.len()
                invariant
                    0 <= i <= en@.len(),
                    out@.len() == i,
                    forall|j: int|
                        0 <= j < i ==> out@[j].0@ == en@[j].0@ && value_view(out@[j].1)
                            == value_view(en@[j].1),
                decreases en@.len() - i,
            {
                let key = copy_bytes(&en[i].0);
                let val = value_clone(&en[i].1);
                out.push((key, val));
                i = i + 1;
            }
            proof {
                lemma_value_entries_view_props(out@);
                lemma_value_entries_view_props(en@);
                assert(value_entries_view(out@) =~= value_entries_view(en@));
            }
            Value::Mapping(out)
        },
        Value::Func(ps, body) => Value::Func(strs_clone(ps), nodes_clone(body)),
        Value::ExternalFn(f) => Value::ExternalFn(*f),
    }
}

/// Decides structural equality of the images of two values: equal kind and
/// equal content, recursively through lists and maps; closures compare by
/// their captured parameter names and body forms.
#[verifier::loop_isolation(false)]
pub fn equal_values(a: &Value, b: &Value) -> (r: bool)
    ensures
        r == (a@ == b@),
    decreases a,
{
    match (a, b) {
        (Value::Str(x), Value::Str(y)) => bytes_eq(x, y),
        (Value::Int(x), Value::Int(y)) => *x == *y,
        (Value::Real(m1, s1), Value::Real(m2, s2)) => *m1 == *m2 && *s1 == *s2,
        (Value::Bool(x), Value::Bool(y)) => *x == *y,
        (Value::Nil, Value::Nil) => true,
        (Value::List(x), Value::List(y)) => {
            proof {
                lemma_values_view_props(x@);
                lemma_values_view_props(y@);
            }
            if x.len() != y.len() {
                proof {
                    assert(values_view(x@).len() != values_view(y@).len());
                }
                return false;
            }
            let mut i: usize = 0;
            while i < x.len()
                invariant
                    0 <= i <= x@.len(),
                    x@.len() == y@.len(),
                    forall|j: int| 0 <= j < i ==> values_view(x@)[j] == values_view(y@)[j],
                decreases x@.len() - i,
            {
                if !equal_values(&x[i], &y[i]) {
                    proof {
                        assert(values_view(x@)[i as int] != values_view(y@)[i as int]);
                    }
                    return false;
                }
                i = i + 1;
            }
            proof {
                assert(values_view(x@) =~= values_view(y@));
            }
            true
        },
        (Value::Mapping(x), Value::Mapping(y)) => {
            proof {
                lemma_value_entries_view_props(x@);
                lemma_value_entries_view_props(y@);
            }
            if x.len() != y.len() {
                proof {
                    assert(value_entries_view(x@).len() != value_entries_view(y@).len());
                }
                return false;
            }
            let mut i: usize = 0;
            while i < x.len()
                invariant
                    0 <= i <= x@.len(),
                    x@.len() == y@.len(),
                    forall|j: int|
                        0 <= j < i ==> value_entries_view(x@)[j] == value_entries_view(y@)[j],
                decreases x@.len() - i,
            {
                if !bytes_eq(&x[i].0, &y[i].0) {
                    proof {
                        assert(value_entries_view(x@)[i as int] != value_entries_view(
                            y@,
                        )[i as int]);
                    }
                    return false;
                }
                if !equal_values(&x[i].1, &y[i].1) {
                    proof {
                        assert(value_entries_view(x@)[i as int] != value_entries_view(
                            y@,
                        )[i as int]);
                    }
                    return false;
                }
                i = i + 1;
            }
            proof {
                assert(value_entries_view(x@) =~= value_entries_view(y@));
            }
            true
        },
        (Value::Func(p1, b1), Value::Func(p2, b2)) => {
            proof {
                lemma_strs_view_props(p1@);
                lemma_strs_view_props(p2@);
            }
            if p1.len() != p2.len() {
                proof {
                    assert(strs_view(p1@).len() != strs_view(p2@).len());
                }
                return false;
            }
            let mut i: usize = 0;
            while i < p1.len()
                invariant
                    0 <= i <= p1@.len(),
                    p1@.len() == p2@.len(),
                    forall|j: int| 0 <= j < i ==> strs_view(p1@)[j] == strs_view(p2@)[j],
                decreases p1@.len() - i,
            {
                if !bytes_eq(&p1[i], &p2[i]) {
                    proof {
                        assert(strs_view(p1@)[i as int] != strs_view(p2@)[i as int]);
                    }
                    return false;
                }
                i = i + 1;
            }
            proof {
                assert(strs_view(p1@) =~= strs_view(p2@));
            }
            nodes_equal(b1, b2)
        },
        (Value::ExternalFn(f1), Value::ExternalFn(f2)) => *f1 == *f2,
        _ => {
            assert(a@ != b@);
            false
        },
    }
}

/// Structural equality is reflexive: every value equals itself.
pub proof fn lemma_equality_reflexive(a: ValueV)
    ensures
        (a == a) == true,
{
}

/// Structural equality is symmetric: the order of the two values compared
/// does not matter.
pub proof fn lemma_equality_symmetric(a: ValueV, b: ValueV)
    ensures
        (a == b) == (b == a),
{
}


/// The decimal digits of a nonnegative number, most significant first.
pub open spec fn u64_to_dec(n: int) -> Seq<u8>
    decreases n,
{
    if n < 0 {
        Seq::empty()
    } else if n < 10 {
        seq![(0x30 + n) as u8]
    } else {
        u64_to_dec(n / 10).push((0x30 + n % 10) as u8)
    }
}

/// The decimal text of a signed number.
pub open spec fn int_to_dec(i: int) -> Seq<u8> {
    if i < 0 {
        seq![0x2du8] + u64_to_dec(-i)
    } else {
        u64_to_dec(i)
    }
}

/// `k` zero digits.
pub open spec fn zeros(k: int) -> Seq<u8>
    decreases k,
{
    if k <= 0 {
        Seq::empty()
    } else {
        seq![0x30u8] + zeros(k - 1)
    }
}

/// A run of zero digits is all zero digits.
pub proof fn lemma_zeros_props(k: int)
    ensures
        zeros(k).len() == (if k <= 0 { 0int } else { k }),
        forall|i: int| 0 <= i < zeros(k).len() ==> zeros(k)[i] == 0x30u8,
    decreases k,
{
    if k > 0 {
        lemma_zeros_props(k - 1);
    }
}

/// The decimal text of `m / 10^sc`: the mantissa's digits with a decimal
/// point `sc` places from the right, zero-padded below one.
pub open spec fn real_to_bytes(m: int, sc: int) -> Seq<u8> {
    let a = if m < 0 {
        -m
    } else {
        m
    };
    let d = u64_to_dec(a);
    let body = if sc <= 0 {
        d
    } else if d.len() > sc {
        d.subrange(0, d.len() - sc) + seq![0x2eu8] + d.subrange(d.len() - sc, d.len() as int)
    } else {
        seq![0x30u8, 0x2eu8] + zeros(sc - d.len()) + d
    };
    if m < 0 {
        seq![0x2du8] + body
    } else {
        body
    }
}

/// One uppercase hexadecimal digit.
pub open spec fn hex_digit_byte(d: int) -> u8 {
    if d < 10 {
        (0x30 + d) as u8
    } else {
        (0x41 + d - 10) as u8
    }
}

/// The uppercase hexadecimal digits of a nonnegative number.
pub open spec fn u64_to_hex(n: int) -> Seq<u8>
    decreases n,
{
    if n < 0 {
        Seq::empty()
    } else if n < 16 {
        seq![hex_digit_byte(n)]
    } else {
        u64_to_hex(n / 16).push(hex_digit_byte(n % 16))
    }
}

/// The text `<Nil>`.
pub open spec fn nil_text() -> Seq<u8> {
    seq![0x3cu8, 0x4eu8, 0x69u8, 0x6cu8, 0x3eu8]
}

/// The text `<Fn::Internal>`.
pub open spec fn fn_internal_text() -> Seq<u8> {
    seq![
        0x3cu8,
        0x46u8,
        0x6eu8,
        0x3au8,
        0x3au8,
        0x49u8,
        0x6eu8,
        0x74u8,
        0x65u8,
        0x72u8,
        0x6eu8,
        0x61u8,
        0x6cu8,
        0x3eu8,
    ]
}

/// The text `<Fn::External>`.
pub open spec fn fn_external_text() -> Seq<u8> {
    seq![
        0x3cu8,
        0x46u8,
        0x6eu8,
        0x3au8,
        0x3au8,
        0x45u8,
        0x78u8,
        0x74u8,
        0x65u8,
        0x72u8,
        0x6eu8,
        0x61u8,
        0x6cu8,
        0x3eu8,
    ]
}

/// The textual rendering of a value: strings are their contents, numbers
/// their decimal text, booleans and nil their words, lists and maps their
/// bracketed items, and functions opaque tags.
pub open spec fn val_to_bytes(v: ValueV) -> Seq<u8>
    decreases v,
{
    match v {
        ValueV::Str(s) => s,
        ValueV::Int(i) => int_to_dec(i as int),
        ValueV::Real(m, sc) => real_to_bytes(m as int, sc as int),
        ValueV::Bool(b) => if b {
            crate::tokenizer::kw_true()
        } else {
            crate::tokenizer::kw_false()
        },
        ValueV::Nil => nil_text(),
        ValueV::List(items) => seq![0x7bu8, 0x20u8] + render_list(items) + seq![0x7du8],
        ValueV::Mapping(en) => if en.len() == 0 {
            seq![0x7bu8, 0x3au8, 0x7du8]
        } else {
            seq![0x7bu8, 0x20u8] + render_map(en) + seq![0x7du8]
        },
        ValueV::Func(ps, body) => fn_internal_text(),
        ValueV::ExternalFn(f) => fn_external_text(),
    }
}

/// The rendering of list items, each followed by one space.
pub open spec fn render_list(items: Seq<ValueV>) -> Seq<u8>
    decreases items,
{
    if items.len() == 0 {
        Seq::empty()
    } else {
        val_to_bytes(items[0]) + seq![0x20u8] + render_list(items.drop_first())
    }
}

/// The rendering of map bindings, each `key: value` followed by one space.
pub open spec fn render_map(en: Seq<(Seq<u8>, ValueV)>) -> Seq<u8>
    decreases en,
{
    if en.len() == 0 {
        Seq::empty()
    } else {
        en[0].0 + seq![0x3au8, 0x20u8] + val_to_bytes(en[0].1) + seq![0x20u8] + render_map(
            en.drop_first(),
        )
    }
}

/// Appends a byte string to a buffer.
#[verifier::loop_isolation(false)]
pub fn push_all(out: &mut Vec<u8>, s: &Vec<u8>)
    ensures
        final(out)@ == old(out)@ + s@,
{
    let mut i: usize = 0;
    assert(old(out)@ + s@.subrange(0, 0) =~= old(out)@);
    while i < s.len()
        invariant
            0 <= i <= s@.len(),
            out@ == old(out)@ + s@.subrange(0, i as int),
        decreases s@.len() - i,
    {
        assert((old(out)@ + s@.subrange(0, i as int)).push(s@[i as int]) =~= old(out)@
            + s@.subrange(0, i + 1));
        out.push(s[i]);
        i = i + 1;
    }
    assert(s@.subrange(0, s@.len() as int) =~= s@);
}

/// Computes the decimal digits of a number.
pub fn dec_digits(n: u64) -> (r: Vec<u8>)
    ensures
        r@ == u64_to_dec(n as int),
    decreases n,
{
    if n < 10 {
        let mut v: Vec<u8> = Vec::new();
        v.push(0x30 + (n as u8));
        proof {
            assert(v@ =~= seq![(0x30 + n as int) as u8]);
        }
        v
    } else {
        let mut v = dec_digits(n / 10);
        v.push(0x30 + ((n % 10) as u8));
        v
    }
}

/// Computes the uppercase hexadecimal digits of a number.
pub fn hex_digits(n: u64) -> (r: Vec<u8>)
    ensures
        r@ == u64_to_hex(n as int),
    decreases n,
{
    if n < 16 {
        let d: u8 = if n < 10 {
            0x30 + (n as u8)
        } else {
            0x41 + ((n - 10) as u8)
        };
        let mut v: Vec<u8> = Vec::new();
        v.push(d);
        proof {
            assert(v@ =~= seq![hex_digit_byte(n as int)]);
        }
        v
    } else {
        let mut v = hex_digits(n / 16);
        let rest: u64 = n % 16;
        let d: u8 = if rest < 10 {
            0x30 + (rest as u8)
        } else {
            0x41 + ((rest - 10) as u8)
        };
        v.push(d);
        v
    }
}

/// The magnitude of a signed number as an unsigned one.
pub fn abs_u64(i: i64) -> (r: u64)
    ensures
        r as int == (if i < 0 { -(i as int) } else { i as int }),
{
    if i >= 0 {
        i as u64
    } else {
        ((-(i + 1)) as u64) + 1
    }
}

/// Computes the decimal text of a signed number.
pub fn int_dec_digits(i: i64) -> (r: Vec<u8>)
    ensures
        r@ == int_to_dec(i as int),
{
    if i >= 0 {
        dec_digits(i as u64)
    } else {
        let a = abs_u64(i);
        let mut v: Vec<u8> = Vec::new();
        v.push(0x2d);
        let d = dec_digits(a);
        push_all(&mut v, &d);
        proof {
            assert(seq![0x2du8] =~= Seq::<u8>::empty().push(0x2du8));
            assert(v@ =~= seq![0x2du8] + u64_to_dec(a as int));
        }
        v
    }
}

/// Computes the decimal text of `m / 10^sc`.
#[verifier::loop_isolation(false)]
pub fn real_dec_digits(m: i64, sc: u64) -> (r: Vec<u8>)
    ensures
        r@ == real_to_bytes(m as int, sc as int),
{
    let neg = m < 0;
    let a = abs_u64(m);
    let d = dec_digits(a);
    let ghost dv = u64_to_dec(a as int);
    let mut out: Vec<u8> = Vec::new();
    if neg {
        out.push(0x2d);
    }
    let ghost base = out@;
    if sc == 0 {
        push_all(&mut out, &d);
        proof {
            if neg {
                assert(base =~= seq![0x2du8]);
                assert(out@ =~= seq![0x2du8] + dv);
            } else {
                assert(base =~= Seq::<u8>::empty());
                assert(out@ =~= dv);
            }
        }
        out
    } else if (d.len() as u64) > sc {
        let cut: usize = d.len() - (sc as usize);
        let mut i: usize = 0;
        while i < cut
            invariant
                0 <= i <= cut <= d@.len(),
                out@ == base + d@.subrange(0, i as int),
            decreases cut - i,
        {
            assert((base + d@.subrange(0, i as int)).push(d@[i as int]) =~= base + d@.subrange(
                0,
                i + 1,
            ));
            out.push(d[i]);
            i = i + 1;
        }
        out.push(0x2e);
        let ghost mid = out@;
        assert(mid =~= base + d@.subrange(0, cut as int) + seq![0x2eu8]);
        while i < d.len()
            invariant
                cut <= i <= d@.len(),
                out@ == mid + d@.subrange(cut as int, i as int),
            decreases d@.len() - i,
        {
            assert((mid + d@.subrange(cut as int, i as int)).push(d@[i as int]) =~= mid
                + d@.subrange(cut as int, i + 1));
            out.push(d[i]);
            i = i + 1;
        }
        proof {
            let body = dv.subrange(0, dv.len() - sc) + seq![0x2eu8] + dv.subrange(
                dv.len() - sc,
                dv.len() as int,
            );
            assert(out@ =~= base + body);
            if neg {
                assert(base =~= seq![0x2du8]);
                assert(out@ =~= seq![0x2du8] + body);
            } else {
                assert(base =~= Seq::<u8>::empty());
                assert(out@ =~= body);
            }
        }
        out
    } else {
        out.push(0x30);
        out.push(0x2e);
        let ghost mid = out@;
        let total: u64 = sc - (d.len() as u64);
        let mut k: u64 = 0;
        proof {
            lemma_zeros_props(total as int);
        }
        while k < total
            invariant
                0 <= k <= total,
                out@ == mid + zeros(k as int),
            decreases total - k,
        {
            proof {
                lemma_zeros_props(k as int);
                lemma_zeros_props(k + 1);
                assert((mid + zeros(k as int)).push(0x30u8) =~= mid + zeros(k + 1));
            }
            out.push(0x30);
            k = k + 1;
        }
        push_all(&mut out, &d);
        proof {
            let body = seq![0x30u8, 0x2eu8] + zeros(sc as int - dv.len()) + dv;
            assert(out@ =~= base + body);
            if neg {
                assert(base =~= seq![0x2du8]);
                assert(out@ =~= seq![0x2du8] + body);
            } else {
                assert(base =~= Seq::<u8>::empty());
                assert(out@ =~= body);
            }
        }
        out
    }
}

/// Renders one value to its text.
#[verifier::loop_isolation(false)]
pub fn render_value(v: &Value) -> (r: Vec<u8>)
    ensures
        r@ == val_to_bytes(v@),
    decreases v,
{
    match v {
        Value::Str(s) => copy_bytes(s),
        Value::Int(i) => int_dec_digits(*i),
        Value::Real(m, sc) => real_dec_digits(*m, *sc),
        Value::Bool(b) => {
            let mut out: Vec<u8> = Vec::new();
            if *b {
                out.push(0x74);
                out.push(0x72);
                out.push(0x75);
                out.push(0x65);
                proof {
                    assert(out@ =~= crate::tokenizer::kw_true());
                }
            } else {
                out.push(0x66);
                out.push(0x61);
                out.push(0x6c);
                out.push(0x73);
                out.push(0x65);
                proof {
                    assert(out@ =~= crate::tokenizer::kw_false());
                }
            }
            out
        },
        Value::Nil => {
            let mut out: Vec<u8> = Vec::new();
            out.push(0x3c);
            out.push(0x4e);
            out.push(0x69);
            out.push(0x6c);
            out.push(0x3e);
            proof {
                assert(out@ =~= nil_text());
            }
            out
        },
        Value::List(items) => {
            let ghost vv = values_view(items@);
            proof {
                lemma_values_view_props(items@);
            }
            let mut out: Vec<u8> = Vec::new();
            out.push(0x7b);
            out.push(0x20);
            let ghost base = out@;
            proof {
                assert(base =~= seq![0x7bu8, 0x20u8]);
                assert(vv.skip(0) =~= vv);
            }
            let mut i: usize = 0;
            while i < items.len()
                invariant
                    0 <= i <= items@.len(),
                    base + render_list(vv) == out@ + render_list(vv.skip(i as int)),
                decreases items@.len() - i,
            {
                let piece = render_value(&items[i]);
                proof {
                    assert(vv.skip(i as int).drop_first() =~= vv.skip(i + 1));
                    assert(vv.skip(i as int)[0] == vv[i as int]);
                    let rest = render_list(vv.skip(i + 1));
                    assert(out@ + (val_to_bytes(vv[i as int]) + seq![0x20u8] + rest) =~= ((out@
                        + val_to_bytes(vv[i as int])).push(0x20u8)) + rest);
                }
                push_all(&mut out, &piece);
                out.push(0x20);
                i = i + 1;
            }
            proof {
                assert(vv.skip(items@.len() as int) =~= Seq::<ValueV>::empty());
                assert(out@ + Seq::<u8>::empty() =~= out@);
            }
            out.push(0x7d);
            proof {
                assert(out@ =~= base + render_list(vv) + seq![0x7du8]);
            }
            out
        },
        Value::Mapping(en) => {
            let ghost ev = value_entries_view(en@);
            proof {
                lemma_value_entries_view_props(en@);
            }
            let mut out: Vec<u8> = Vec::new();
            if en.len() == 0 {
                out.push(0x7b);
                out.push(0x3a);
                out.push(0x7d);
                proof {
                    assert(out@ =~= seq![0x7bu8, 0x3au8, 0x7du8]);
                }
                return out;
            }
            out.push(0x7b);
            out.push(0x20);
            let ghost base = out@;
            proof {
                assert(base =~= seq![0x7bu8, 0x20u8]);
                assert(ev.skip(0) =~= ev);
            }
            let mut i: usize = 0;
            while i < en.len()
                invariant
                    0 <= i <= en@.len(),
                    base + render_map(ev) == out@ + render_map(ev.skip(i as int)),
                decreases en@.len() - i,
            {
                let piece = render_value(&en[i].1);
                proof {
                    assert(ev.skip(i as int).drop_first() =~= ev.skip(i + 1));
                    assert(ev.skip(i as int)[0] == ev[i as int]);
                    let rest = render_map(ev.skip(i + 1));
                    assert(out@ + (ev[i as int].0 + seq![0x3au8, 0x20u8] + val_to_bytes(
                        ev[i as int].1,
                    ) + seq![0x20u8] + rest) =~= (((((out@ + ev[i as int].0).push(0x3au8)).push(
                        0x20u8,
                    ) + val_to_bytes(ev[i as int].1)).push(0x20u8)) + rest));
                }
                push_all(&mut out, &en[i].0);
                out.push(0x3a);
                out.push(0x20);
                push_all(&mut out, &piece);
                out.push(0x20);
                i = i + 1;
            }
            proof {
                assert(ev.skip(en@.len() as int) =~= Seq::<(Seq<u8>, ValueV)>::empty());
                assert(out@ + Seq::<u8>::empty() =~= out@);
            }
            out.push(0x7d);
            proof {
                assert(out@ =~= base + render_map(ev) + seq![0x7du8]);
            }
            out
        },
        Value::Func(ps, body) => {
            let mut out: Vec<u8> = Vec::new();
            out.push(0x3c);
            out.push(0x46);
            out.push(0x6e);
            out.push(0x3a);
            out.push(0x3a);
            out.push(0x49);
            out.push(0x6e);
            out.push(0x74);
            out.push(0x65);
            out.push(0x72);
            out.push(0x6e);
            out.push(0x61);
            out.push(0x6c);
            out.push(0x3e);
            proof {
                assert(out@ =~= fn_internal_text());
            }
            out
        },
        Value::ExternalFn(f) => {
            let mut out: Vec<u8> = Vec::new();
            out.push(0x3c);
            out.push(0x46);
            out.push(0x6e);
            out.push(0x3a);
            out.push(0x3a);
            out.push(0x45);
            out.push(0x78);
            out.push(0x74);
            out.push(0x65);
            out.push(0x72);
            out.push(0x6e);
            out.push(0x61);
            out.push(0x6c);
            out.push(0x3e);
            proof {
                assert(out@ =~= fn_external_text());
            }
            out
        },
    }
}

impl Value {
    /// The boolean this value coerces to.
    pub fn to_bool(&self) -> (r: bool)
        ensures
            r == truthy(self@),
    {
        match self {
            Value::Bool(b) => *b,
            Value::Nil => false,
            Value::Int(i) => *i != 0,
            Value::Real(m, sc) => *m != 0,
            _ => false,
        }
    }

    /// The textual rendering of this value.
    pub fn to_string(&self) -> (r: Vec<u8>)
        ensures
            r@ == val_to_bytes(self@),
    {
        render_value(self)
    }
}

} // verus!
