//! The evaluator: a tree-walking interpreter over forms, with a scope-stack
//! environment, five special forms, user closures and native procedures.
//!
//! The spec function [`eval_spec`] is the definitional interpreter: it maps
//! a form, a state (scope stack and output sink) and a fuel bound to the
//! resulting value or error and the next state. Fuel falls by one on every
//! nested evaluation; exhausting it reports a dedicated depth error, so
//! evaluation always terminates. [`Interpreter::eval`] runs the same
//! computation and is proved to match.
//!
//! Scoping is dynamic: a closure stores parameter names and body forms and
//! no environment; its body sees whatever the scope stack holds at call
//! time. A new scope is entered before the operands are evaluated and
//! bound, and is left on every exit path, errors included.

use vstd::prelude::*;

use crate::assoc::assoc_set;
use crate::builtins::{apply_native, run_native};
use crate::env::{env_lookup, Env};
use crate::errors::{Error, EvalError};
use crate::parser::{
    copy_bytes, lemma_nodes_view_props, node_clone, nodes_view, parse_all, Node, NodeV, Parser,
};
use crate::tokenizer::{lex_from, Tokenizer};
use crate::value::{
    lemma_strs_view_props, lemma_value_entries_view_props, lemma_values_view_props, strs_view,
    truthy, value_clone, value_entries_view, values_view, Native, Value, ValueV,
};

verus! {

/// The interpreter state a form is evaluated in: the scope stack and the
/// output sink that `echo` writes to.
pub struct StateV {
    pub scopes: Seq<Seq<(Seq<u8>, ValueV)>>,
    pub out: Seq<u8>,
}

/// The name of the closure special form.
pub open spec fn kw_fn() -> Seq<u8> {
    seq![0x66u8, 0x6eu8]
}

/// The name of the global-definition special form.
pub open spec fn kw_def() -> Seq<u8> {
    seq![0x64u8, 0x65u8, 0x66u8]
}

/// The name of the conditional special form.
pub open spec fn kw_if() -> Seq<u8> {
    seq![0x69u8, 0x66u8]
}

/// The name of the conjunction special form.
pub open spec fn kw_and() -> Seq<u8> {
    seq![0x61u8, 0x6eu8, 0x64u8]
}

/// The name of the disjunction special form.
pub open spec fn kw_or() -> Seq<u8> {
    seq![0x6fu8, 0x72u8]
}

/// The closed set of special forms, and the case of an ordinary operator.
#[derive(Debug, Clone, Copy, PartialEq, Eq, Structural)]
pub enum Special {
    NotSpecial,
    SFn,
    SDef,
    SIf,
    SAnd,
    SOr,
}

/// Which special form, if any, a symbol names.
pub open spec fn special_of(name: Seq<u8>) -> Special {
    if name == kw_fn() {
        Special::SFn
    } else if name == kw_def() {
        Special::SDef
    } else if name == kw_if() {
        Special::SIf
    } else if name == kw_and() {
        Special::SAnd
    } else if name == kw_or() {
        Special::SOr
    } else {
        Special::NotSpecial
    }
}

/// Resolves a symbol against the closed special-form set.
fn special_lookup(name: &Vec<u8>) -> (r: Special)
    ensures
        r == special_of(name@),
{
    let is_fn = name.len() == 2 && name[0] == 0x66 && name[1] == 0x6e;
    let is_def = name.len() == 3 && name[0] == 0x64 && name[1] == 0x65 && name[2] == 0x66;
    let is_if = name.len() == 2 && name[0] == 0x69 && name[1] == 0x66;
    let is_and = name.len() == 3 && name[0] == 0x61 && name[1] == 0x6e && name[2] == 0x64;
    let is_or = name.len() == 2 && name[0] == 0x6f && name[1] == 0x72;
    proof {
        if is_fn {
            assert(name@ =~= kw_fn());
        }
        if is_def {
            assert(name@ =~= kw_def());
        }
        if is_if {
            assert(name@ =~= kw_if());
        }
        if is_and {
            assert(name@ =~= kw_and());
        }
        if is_or {
            assert(name@ =~= kw_or());
        }
        if name@ == kw_fn() {
            assert(name@.len() == 2 && name@[0] == 0x66 && name@[1] == 0x6e);
        }
        if name@ == kw_def() {
            assert(name@.len() == 3 && name@[0] == 0x64 && name@[1] == 0x65 && name@[2] == 0x66);
        }
        if name@ == kw_if() {
            assert(name@.len() == 2 && name@[0] == 0x69 && name@[1] == 0x66);
        }
        if name@ == kw_and() {
            assert(name@.len() == 3 && name@[0] == 0x61 && name@[1] == 0x6e && name@[2] == 0x64);
        }
        if name@ == kw_or() {
            assert(name@.len() == 2 && name@[0] == 0x6f && name@[1] == 0x72);
        }
    }
    if is_fn {
        Special::SFn
    } else if is_def {
        Special::SDef
    } else if is_if {
        Special::SIf
    } else if is_and {
        Special::SAnd
    } else if is_or {
        Special::SOr
    } else {
        Special::NotSpecial
    }
}

/// The state with one fresh scope pushed.
pub open spec fn st_push(st: StateV) -> StateV {
    StateV { scopes: st.scopes.push(Seq::empty()), out: st.out }
}

/// The state with the top scope removed.
pub open spec fn st_pop(st: StateV) -> StateV {
    if st.scopes.len() > 0 {
        StateV { scopes: st.scopes.drop_last(), out: st.out }
    } else {
        st
    }
}

/// The state with `k` bound to `v` in the top scope.
pub open spec fn st_define_top(st: StateV, k: Seq<u8>, v: ValueV) -> StateV {
    if st.scopes.len() > 0 {
        StateV {
            scopes: st.scopes.update(
                st.scopes.len() - 1,
                assoc_set(st.scopes.last(), k, v),
            ),
            out: st.out,
        }
    } else {
        st
    }
}

/// The state with `k` bound to `v` in the global scope.
pub open spec fn st_define_global(st: StateV, k: Seq<u8>, v: ValueV) -> StateV {
    if st.scopes.len() > 0 {
        StateV { scopes: st.scopes.update(0, assoc_set(st.scopes[0], k, v)), out: st.out }
    } else {
        st
    }
}

/// The parameter names of a closure's parameter list, when every element
/// is a symbol.
pub open spec fn symbols_of(items: Seq<NodeV>) -> Option<Seq<Seq<u8>>>
    decreases items.len(),
{
    if items.len() == 0 {
        Some(Seq::empty())
    } else {
        match items[0] {
            NodeV::Symbol(s) => match symbols_of(items.drop_first()) {
                Some(rest) => Some(seq![s] + rest),
                None => None,
            },
            _ => None,
        }
    }
}

/// The closure a parameter list and the body forms make, when every
/// parameter is a symbol.
pub open spec fn close_over(items: Seq<NodeV>, ch: Seq<NodeV>, st: StateV) -> (
    Result<ValueV, EvalError>,
    StateV,
) {
    match symbols_of(items) {
        Some(ps) => (Ok(ValueV::Func(ps, ch.skip(2))), st),
        None => (Err(EvalError::Syntax), st),
    }
}

/// What the `fn` special form returns: a closure capturing the parameter
/// names and the remaining body forms verbatim, with no environment. The
/// parameter list may be written in parentheses or braces.
pub open spec fn eval_fn_spec(ch: Seq<NodeV>, st: StateV) -> (Result<ValueV, EvalError>, StateV) {
    if ch.len() < 2 {
        (Err(EvalError::Syntax), st)
    } else {
        match ch[1] {
            NodeV::Expr(items) => close_over(items, ch, st),
            NodeV::List(items) => close_over(items, ch, st),
            _ => (Err(EvalError::Syntax), st),
        }
    }
}

/// Evaluates one form in a state with the given fuel.
pub open spec fn eval_spec(n: NodeV, st: StateV, fuel: nat) -> (Result<ValueV, EvalError>, StateV)
    decreases fuel, 0int, 0int,
{
    if fuel == 0 {
        (Err(EvalError::TooDeep), st)
    } else {
        let f1 = (fuel - 1) as nat;
        match n {
            NodeV::Str(s) => (Ok(ValueV::Str(s)), st),
            NodeV::Int(i) => (Ok(ValueV::Int(i)), st),
            NodeV::Real(m, sc) => (Ok(ValueV::Real(m, sc)), st),
            NodeV::Bool(b) => (Ok(ValueV::Bool(b)), st),
            NodeV::Nil => (Ok(ValueV::Nil), st),
            NodeV::Symbol(s) => match env_lookup(st.scopes, s) {
                Some(v) => (Ok(v), st),
                None => (Err(EvalError::UnknownSymbol), st),
            },
            NodeV::List(ch) => {
                let (r, st2) = eval_args_spec(ch, 0, st, f1, Seq::empty());
                match r {
                    Ok(vs) => (Ok(ValueV::List(vs)), st2),
                    Err(e) => (Err(e), st2),
                }
            },
            NodeV::Mapping(en) => {
                let (r, st2) = eval_entries_spec(en, 0, st, f1, Seq::empty());
                match r {
                    Ok(es) => (Ok(ValueV::Mapping(es)), st2),
                    Err(e) => (Err(e), st2),
                }
            },
            NodeV::Expr(ch) => {
                if ch.len() == 0 {
                    (Err(EvalError::EmptyExpr), st)
                } else {
                    match ch[0] {
                        NodeV::Symbol(name) => {
                            let sp = special_of(name);
                            if sp == Special::SFn {
                                eval_fn_spec(ch, st)
                            } else if sp == Special::SDef {
                                if ch.len() != 3 {
                                    (Err(EvalError::Syntax), st)
                                } else {
                                    match ch[1] {
                                        NodeV::Symbol(k) => {
                                            let (r, st2) = eval_spec(ch[2], st, f1);
                                            match r {
                                                Ok(v) => (Ok(v), st_define_global(st2, k, v)),
                                                Err(e) => (Err(e), st2),
                                            }
                                        },
                                        _ => (Err(EvalError::Syntax), st),
                                    }
                                }
                            } else if sp == Special::SIf {
                                if ch.len() != 3 && ch.len() != 4 {
                                    (Err(EvalError::Syntax), st)
                                } else {
                                    let (r, st2) = eval_spec(ch[1], st, f1);
                                    match r {
                                        Err(e) => (Err(e), st2),
                                        Ok(c) => if truthy(c) {
                                            eval_spec(ch[2], st2, f1)
                                        } else if ch.len() == 4 {
                                            eval_spec(ch[3], st2, f1)
                                        } else {
                                            (Ok(ValueV::Nil), st2)
                                        },
                                    }
                                }
                            } else if sp == Special::SAnd {
                                eval_and_spec(ch, 1, st, f1)
                            } else if sp == Special::SOr {
                                eval_or_spec(ch, 1, st, f1)
                            } else {
                                match env_lookup(st.scopes, name) {
                                    Some(v) => apply_spec(v, ch, st, f1),
                                    None => (Err(EvalError::UnknownSymbol), st),
                                }
                            }
                        },
                        _ => {
                            let (r, st2) = eval_spec(ch[0], st, f1);
                            match r {
                                Ok(v) => apply_spec(v, ch, st2, f1),
                                Err(e) => (Err(e), st2),
                            }
                        },
                    }
                }
            },
        }
    }
}

/// Evaluates the forms of `ns` from `from` on, left to right, collecting
/// their values after `acc`; the first error aborts.
pub open spec fn eval_args_spec(
    ns: Seq<NodeV>,
    from: int,
    st: StateV,
    fuel: nat,
    acc: Seq<ValueV>,
) -> (Result<Seq<ValueV>, EvalError>, StateV)
    decreases fuel, 1int, ns.len() - from,
{
    if from < 0 || from >= ns.len() {
        (Ok(acc), st)
    } else {
        let (r, st2) = eval_spec(ns[from], st, fuel);
        match r {
            Err(e) => (Err(e), st2),
            Ok(v) => eval_args_spec(ns, from + 1, st2, fuel, acc.push(v)),
        }
    }
}

/// Evaluates map-literal bindings from `from` on, binding each key to its
/// evaluated value after `acc`; the first error aborts.
pub open spec fn eval_entries_spec(
    en: Seq<(Seq<u8>, NodeV)>,
    from: int,
    st: StateV,
    fuel: nat,
    acc: Seq<(Seq<u8>, ValueV)>,
) -> (Result<Seq<(Seq<u8>, ValueV)>, EvalError>, StateV)
    decreases fuel, 1int, en.len() - from,
{
    if from < 0 || from >= en.len() {
        (Ok(acc), st)
    } else {
        let (r, st2) = eval_spec(en[from].1, st, fuel);
        match r {
            Err(e) => (Err(e), st2),
            Ok(v) => eval_entries_spec(en, from + 1, st2, fuel, assoc_set(acc, en[from].0, v)),
        }
    }
}

/// Evaluates body forms from `from` on, keeping only the last value; an
/// empty body yields nil.
pub open spec fn eval_body_spec(body: Seq<NodeV>, from: int, st: StateV, fuel: nat) -> (
    Result<ValueV, EvalError>,
    StateV,
)
    decreases fuel, 1int, body.len() - from,
{
    if from < 0 || from >= body.len() {
        (Ok(ValueV::Nil), st)
    } else {
        let (r, st2) = eval_spec(body[from], st, fuel);
        match r {
            Err(e) => (Err(e), st2),
            Ok(v) => if from == body.len() - 1 {
                (Ok(v), st2)
            } else {
                eval_body_spec(body, from + 1, st2, fuel)
            },
        }
    }
}

/// Evaluates conjunction operands left to right: false at the first falsy
/// value, true when none is left, zero operands included.
pub open spec fn eval_and_spec(ns: Seq<NodeV>, from: int, st: StateV, fuel: nat) -> (
    Result<ValueV, EvalError>,
    StateV,
)
    decreases fuel, 1int, ns.len() - from,
{
    if from < 0 || from >= ns.len() {
        (Ok(ValueV::Bool(true)), st)
    } else {
        let (r, st2) = eval_spec(ns[from], st, fuel);
        match r {
            Err(e) => (Err(e), st2),
            Ok(v) => if !truthy(v) {
                (Ok(ValueV::Bool(false)), st2)
            } else {
                eval_and_spec(ns, from + 1, st2, fuel)
            },
        }
    }
}

/// Evaluates disjunction operands left to right: true at the first truthy
/// value, false when none is left, zero operands included.
pub open spec fn eval_or_spec(ns: Seq<NodeV>, from: int, st: StateV, fuel: nat) -> (
    Result<ValueV, EvalError>,
    StateV,
)
    decreases fuel, 1int, ns.len() - from,
{
    if from < 0 || from >= ns.len() {
        (Ok(ValueV::Bool(false)), st)
    } else {
        let (r, st2) = eval_spec(ns[from], st, fuel);
        match r {
            Err(e) => (Err(e), st2),
            Ok(v) => if truthy(v) {
                (Ok(ValueV::Bool(true)), st2)
            } else {
                eval_or_spec(ns, from + 1, st2, fuel)
            },
        }
    }
}

/// Evaluates the call operands `ch[1+k]` and binds them to the parameters
/// `ps[k]` in order, in the top scope; the first error aborts. Earlier
/// parameters are already bound while later operands are evaluated.
pub open spec fn bind_args_spec(
    ps: Seq<Seq<u8>>,
    ch: Seq<NodeV>,
    k: int,
    st: StateV,
    fuel: nat,
) -> (Option<EvalError>, StateV)
    decreases fuel, 1int, ps.len() - k,
{
    if k < 0 || k >= ps.len() || k + 1 >= ch.len() {
        (None, st)
    } else {
        let (r, st2) = eval_spec(ch[k + 1], st, fuel);
        match r {
            Err(e) => (Some(e), st2),
            Ok(v) => bind_args_spec(ps, ch, k + 1, st_define_top(st2, ps[k], v), fuel),
        }
    }
}

/// Applies a callee value to the operand forms `ch[1..]`: a native runs on
/// the evaluated operands without a new scope; a closure checks its arity,
/// enters a scope, binds the operands, runs its body and leaves the scope
/// on every exit path; any other value is not callable.
pub open spec fn apply_spec(callee: ValueV, ch: Seq<NodeV>, st: StateV, fuel: nat) -> (
    Result<ValueV, EvalError>,
    StateV,
)
    decreases fuel, 2int, 0int,
{
    match callee {
        ValueV::ExternalFn(f) => {
            let (r, st2) = eval_args_spec(ch, 1, st, fuel, Seq::empty());
            match r {
                Err(e) => (Err(e), st2),
                Ok(vs) => {
                    let (rr, out2) = apply_native(f, vs, st2.out);
                    (rr, StateV { scopes: st2.scopes, out: out2 })
                },
            }
        },
        ValueV::Func(ps, body) => {
            if ch.len() - 1 != ps.len() {
                (Err(EvalError::Arity), st)
            } else {
                let st1 = st_push(st);
                let (b, st2) = bind_args_spec(ps, ch, 0, st1, fuel);
                match b {
                    Some(e) => (Err(e), st_pop(st2)),
                    None => {
                        let (r, st3) = eval_body_spec(body, 0, st2, fuel);
                        (r, st_pop(st3))
                    },
                }
            }
        },
        _ => (Err(EvalError::NotCallable), st),
    }
}

/// Evaluates top-level forms from `from` on with the full fuel each,
/// collecting their values after `acc`; the first error aborts.
pub open spec fn eval_many_spec(
    ns: Seq<NodeV>,
    from: int,
    st: StateV,
    fuel: nat,
    acc: Seq<ValueV>,
) -> (Result<Seq<ValueV>, EvalError>, StateV)
    decreases ns.len() - from,
{
    if from < 0 || from >= ns.len() {
        (Ok(acc), st)
    } else {
        let (r, st2) = eval_spec(ns[from], st, fuel);
        match r {
            Err(e) => (Err(e), st2),
            Ok(v) => eval_many_spec(ns, from + 1, st2, fuel, acc.push(v)),
        }
    }
}

/// The name `+`.
pub open spec fn sym_plus() -> Seq<u8> {
    seq![0x2bu8]
}

/// The name `*`.
pub open spec fn sym_star() -> Seq<u8> {
    seq![0x2au8]
}

/// The name `-`.
pub open spec fn sym_minus() -> Seq<u8> {
    seq![0x2du8]
}

/// The name `=`.
pub open spec fn sym_eq() -> Seq<u8> {
    seq![0x3du8]
}

/// The name `echo`.
pub open spec fn sym_echo() -> Seq<u8> {
    seq![0x65u8, 0x63u8, 0x68u8, 0x6fu8]
}

/// The name `hex`.
pub open spec fn sym_hex() -> Seq<u8> {
    seq![0x68u8, 0x65u8, 0x78u8]
}

/// The global scope a fresh interpreter starts with: the six natives bound
/// under their names, in registration order.
pub open spec fn initial_global() -> Seq<(Seq<u8>, ValueV)> {
    assoc_set(
        assoc_set(
            assoc_set(
                assoc_set(
                    assoc_set(
                        assoc_set(Seq::empty(), sym_plus(), ValueV::ExternalFn(Native::Add)),
                        sym_star(),
                        ValueV::ExternalFn(Native::Mul),
                    ),
                    sym_minus(),
                    ValueV::ExternalFn(Native::Sub),
                ),
                sym_eq(),
                ValueV::ExternalFn(Native::Equals),
            ),
            sym_echo(),
            ValueV::ExternalFn(Native::Echo),
        ),
        sym_hex(),
        ValueV::ExternalFn(Native::Hex),
    )
}

/// The state a fresh interpreter starts in: one global scope holding the
/// natives, and an empty output sink.
pub open spec fn initial_state() -> StateV {
    StateV { scopes: seq![initial_global()], out: Seq::empty() }
}

/// The default bound on evaluation depth.
pub const DEFAULT_DEPTH: u64 = 1000;

/// The interpreter: the environment carried across evaluations, the output
/// sink and the depth limit.
pub struct Interpreter {
    pub env: Env,
    pub out: Vec<u8>,
    pub limit: u64,
}

/// The state an interpreter stands in.
pub open spec fn state_of(i: Interpreter) -> StateV {
    StateV { scopes: i.env@, out: i.out@ }
}

impl Interpreter {
    /// Makes an interpreter with the given depth limit: one global scope
    /// with the six natives bound, and an empty output sink.
    pub fn with_limit(limit: u64) -> (r: Interpreter)
        ensures
            state_of(r) == initial_state(),
            r.limit == limit,
    {
        let mut interp = Interpreter { env: Env::new(), out: Vec::new(), limit };
        interp.env.enter();
        proof {
            assert(interp.env@ =~= seq![Seq::<(Seq<u8>, ValueV)>::empty()]);
        }
        let mut n: Vec<u8> = Vec::new();
        n.push(0x2b);
        proof {
            assert(n@ =~= sym_plus());
        }
        interp.expose_external_func(n, Native::Add);
        let mut n: Vec<u8> = Vec::new();
        n.push(0x2a);
        proof {
            assert(n@ =~= sym_star());
        }
        interp.expose_external_func(n, Native::Mul);
        let mut n: Vec<u8> = Vec::new();
        n.push(0x2d);
        proof {
            assert(n@ =~= sym_minus());
        }
        interp.expose_external_func(n, Native::Sub);
        let mut n: Vec<u8> = Vec::new();
        n.push(0x3d);
        proof {
            assert(n@ =~= sym_eq());
        }
        interp.expose_external_func(n, Native::Equals);
        let mut n: Vec<u8> = Vec::new();
        n.push(0x65);
        n.push(0x63);
        n.push(0x68);
        n.push(0x6f);
        proof {
            assert(n@ =~= sym_echo());
        }
        interp.expose_external_func(n, Native::Echo);
        let mut n: Vec<u8> = Vec::new();
        n.push(0x68);
        n.push(0x65);
        n.push(0x78);
        proof {
            assert(n@ =~= sym_hex());
        }
        interp.expose_external_func(n, Native::Hex);
        proof {
            assert(interp.env@ =~= seq![initial_global()]);
        }
        interp
    }

    /// Makes an interpreter with the default depth limit.
    pub fn new() -> (r: Interpreter)
        ensures
            state_of(r) == initial_state(),
            r.limit == DEFAULT_DEPTH,
    {
        Interpreter::with_limit(DEFAULT_DEPTH)
    }

    /// Binds a name to a native procedure in the current top scope.
    pub fn expose_external_func(&mut self, name: Vec<u8>, func: Native)
        requires
            old(self).env@.len() > 0,
        ensures
            final(self).env@ == old(self).env@.update(
                old(self).env@.len() - 1,
                assoc_set(old(self).env@.last(), name@, ValueV::ExternalFn(func)),
            ),
            final(self).out@ == old(self).out@,
            final(self).limit == old(self).limit,
    {
        self.env.define(name, Value::ExternalFn(func));
    }

    /// Evaluates one form, carrying the environment and output across
    /// calls; the result and the new state are exactly those of the
    /// definitional interpreter at this interpreter's depth limit.
    pub fn eval(&mut self, node: &Node) -> (r: Result<Value, EvalError>)
        requires
            old(self).env@.len() > 0,
        ensures
            final(self).limit == old(self).limit,
            final(self).env@.len() == old(self).env@.len(),
            ({
                let (rv, st2) = eval_spec(node@, state_of(*old(self)), old(self).limit as nat);
                state_of(*final(self)) == st2 && (match (r, rv) {
                    (Ok(v), Ok(vv)) => v@ == vv,
                    (Err(e1), Err(e2)) => e1 == e2,
                    _ => false,
                })
            }),
    {
        let fuel = self.limit;
        self.eval_at(node, fuel)
    }

    /// Evaluates one form with the given fuel.
    #[verifier::rlimit(100)]
    fn eval_at(&mut self, n: &Node, fuel: u64) -> (r: Result<Value, EvalError>)
        requires
            old(self).env@.len() > 0,
        ensures
            final(self).limit == old(self).limit,
            final(self).env@.len() == old(self).env@.len(),
            ({
                let (rv, st2) = eval_spec(n@, state_of(*old(self)), fuel as nat);
                state_of(*final(self)) == st2 && (match (r, rv) {
                    (Ok(v), Ok(vv)) => v@ == vv,
                    (Err(e1), Err(e2)) => e1 == e2,
                    _ => false,
                })
            }),
        decreases fuel, 0int, 0int,
    {
        if fuel == 0 {
            return Err(EvalError::TooDeep);
        }
        let f1 = fuel - 1;
        match n {
            Node::Str(s) => Ok(Value::Str(copy_bytes(s))),
            Node::Int(i) => Ok(Value::Int(*i)),
            Node::Real(m, sc) => Ok(Value::Real(*m, *sc)),
            Node::Bool(b) => Ok(Value::Bool(*b)),
            Node::Nil => Ok(Value::Nil),
            Node::Symbol(s) => match self.env.lookup(s) {
                Some(v) => Ok(v),
                None => Err(EvalError::UnknownSymbol),
            },
            Node::List(ch) => match self.eval_args_exec(ch, 0, f1) {
                Ok(vs) => Ok(Value::List(vs)),
                Err(e) => Err(e),
            },
            Node::Mapping(en) => match self.eval_entries_exec(en, f1) {
                Ok(es) => Ok(Value::Mapping(es)),
                Err(e) => Err(e),
            },
            Node::Expr(ch) => {
                proof {
                    lemma_nodes_view_props(ch@);
                }
                if ch.len() == 0 {
                    return Err(EvalError::EmptyExpr);
                }
                let head_kind: Option<Special> = match &ch[0] {
                    Node::Symbol(name) => Some(special_lookup(name)),
                    _ => None,
                };
                match head_kind {
                    Some(Special::SFn) => self.eval_fn_exec(ch),
                    Some(Special::SDef) => {
                        if ch.len() != 3 {
                            return Err(EvalError::Syntax);
                        }
                        let key: Vec<u8> = match &ch[1] {
                            Node::Symbol(k) => copy_bytes(k),
                            _ => {
                                return Err(EvalError::Syntax);
                            },
                        };
                        match self.eval_at(&ch[2], f1) {
                            Err(e) => Err(e),
                            Ok(v) => {
                                let bound = value_clone(&v);
                                self.env.define_global(key, bound);
                                Ok(v)
                            },
                        }
                    },
                    Some(Special::SIf) => {
                        if ch.len() != 3 && ch.len() != 4 {
                            return Err(EvalError::Syntax);
                        }
                        match self.eval_at(&ch[1], f1) {
                            Err(e) => Err(e),
                            Ok(c) => {
                                if c.to_bool() {
                                    self.eval_at(&ch[2], f1)
                                } else if ch.len() == 4 {
                                    self.eval_at(&ch[3], f1)
                                } else {
                                    Ok(Value::Nil)
                                }
                            },
                        }
                    },
                    Some(Special::SAnd) => self.eval_and_exec(ch, f1),
                    Some(Special::SOr) => self.eval_or_exec(ch, f1),
                    Some(Special::NotSpecial) => {
                        let name: &Vec<u8> = match &ch[0] {
                            Node::Symbol(nm) => nm,
                            _ => {
                                proof {
                                    assert(false);
                                }
                                return Err(EvalError::Syntax);
                            },
                        };
                        match self.env.lookup(name) {
                            Some(v) => self.apply_exec(v, ch, f1),
                            None => Err(EvalError::UnknownSymbol),
                        }
                    },
                    None => {
                        match self.eval_at(&ch[0], f1) {
                            Err(e) => Err(e),
                            Ok(v) => self.apply_exec(v, ch, f1),
                        }
                    },
                }
            },
        }
    }

    /// Evaluates `ns[from..]` left to right into a value vector.
    #[verifier::loop_isolation(false)]
    fn eval_args_exec(&mut self, ns: &Vec<Node>, from: usize, fuel: u64) -> (r: Result<
        Vec<Value>,
        EvalError,
    >)
        requires
            old(self).env@.len() > 0,
            from <= ns@.len(),
        ensures
            final(self).limit == old(self).limit,
            final(self).env@.len() == old(self).env@.len(),
            ({
                let (rv, st2) = eval_args_spec(
                    nodes_view(ns@),
                    from as int,
                    state_of(*old(self)),
                    fuel as nat,
                    Seq::empty(),
                );
                state_of(*final(self)) == st2 && (match (r, rv) {
                    (Ok(vs), Ok(vv)) => values_view(vs@) == vv,
                    (Err(e1), Err(e2)) => e1 == e2,
                    _ => false,
                })
            }),
        decreases fuel, 1int, 0int,
    {
        let ghost nsv = nodes_view(ns@);
        let ghost st0 = state_of(*self);
        proof {
            lemma_nodes_view_props(ns@);
        }
        let mut acc: Vec<Value> = Vec::new();
        let mut i: usize = from;
        proof {
            assert(values_view(acc@) =~= Seq::<ValueV>::empty());
        }
        while i < ns.len()
            invariant
                from <= i <= ns@.len(),
                self.env@.len() == old(self).env@.len(),
                self.limit == old(self).limit,
                eval_args_spec(nsv, from as int, st0, fuel as nat, Seq::empty())
                    == eval_args_spec(
                    nsv,
                    i as int,
                    state_of(*self),
                    fuel as nat,
                    values_view(acc@),
                ),
            decreases ns@.len() - i,
        {
            match self.eval_at(&ns[i], fuel) {
                Err(e) => {
                    return Err(e);
                },
                Ok(v) => {
                    proof {
                        lemma_values_view_props(acc@);
                        lemma_values_view_props(acc@.push(v));
                        assert(values_view(acc@.push(v)) =~= values_view(acc@).push(v@));
                    }
                    acc.push(v);
                },
            }
            i = i + 1;
        }
        Ok(acc)
    }

    /// Evaluates map-literal bindings into a binding vector.
    #[verifier::loop_isolation(false)]
    fn eval_entries_exec(&mut self, en: &Vec<(Vec<u8>, Node)>, fuel: u64) -> (r: Result<
        Vec<(Vec<u8>, Value)>,
        EvalError,
    >)
        requires
            old(self).env@.len() > 0,
        ensures
            final(self).limit == old(self).limit,
            final(self).env@.len() == old(self).env@.len(),
            ({
                let (rv, st2) = eval_entries_spec(
                    crate::parser::node_entries_view(en@),
                    0,
                    state_of(*old(self)),
                    fuel as nat,
                    Seq::empty(),
                );
                state_of(*final(self)) == st2 && (match (r, rv) {
                    (Ok(es), Ok(ev)) => value_entries_view(es@) == ev,
                    (Err(e1), Err(e2)) => e1 == e2,
                    _ => false,
                })
            }),
        decreases fuel, 1int, 0int,
    {
        let ghost env = crate::parser::node_entries_view(en@);
        let ghost st0 = state_of(*self);
        proof {
            crate::parser::lemma_node_entries_view_props(en@);
        }
        let mut acc: Vec<(Vec<u8>, Value)> = Vec::new();
        let mut i: usize = 0;
        proof {
            assert(value_entries_view(acc@) =~= Seq::<(Seq<u8>, ValueV)>::empty());
        }
        while i < en.len()
            invariant
                0 <= i <= en@.len(),
                self.env@.len() == old(self).env@.len(),
                self.limit == old(self).limit,
                eval_entries_spec(env, 0, st0, fuel as nat, Seq::empty()) == eval_entries_spec(
                    env,
                    i as int,
                    state_of(*self),
                    fuel as nat,
                    value_entries_view(acc@),
                ),
            decreases en@.len() - i,
        {
            match self.eval_at(&en[i].1, fuel) {
                Err(e) => {
                    return Err(e);
                },
                Ok(v) => {
                    let key = copy_bytes(&en[i].0);
                    crate::env::scope_set(&mut acc, key, v);
                },
            }
            i = i + 1;
        }
        Ok(acc)
    }

    /// Evaluates body forms in order, keeping only the last value.
    #[verifier::loop_isolation(false)]
    fn eval_body_exec(&mut self, body: &Vec<Node>, fuel: u64) -> (r: Result<Value, EvalError>)
        requires
            old(self).env@.len() > 0,
        ensures
            final(self).limit == old(self).limit,
            final(self).env@.len() == old(self).env@.len(),
            ({
                let (rv, st2) = eval_body_spec(
                    nodes_view(body@),
                    0,
                    state_of(*old(self)),
                    fuel as nat,
                );
                state_of(*final(self)) == st2 && (match (r, rv) {
                    (Ok(v), Ok(vv)) => v@ == vv,
                    (Err(e1), Err(e2)) => e1 == e2,
                    _ => false,
                })
            }),
        decreases fuel, 1int, 0int,
    {
        let ghost bv = nodes_view(body@);
        let ghost st0 = state_of(*self);
        proof {
            lemma_nodes_view_props(body@);
        }
        if body.len() == 0 {
            return Ok(Value::Nil);
        }
        let mut i: usize = 0;
        while i < body.len() - 1
            invariant
                0 <= i < body@.len(),
                self.env@.len() == old(self).env@.len(),
                self.limit == old(self).limit,
                eval_body_spec(bv, 0, st0, fuel as nat) == eval_body_spec(
                    bv,
                    i as int,
                    state_of(*self),
                    fuel as nat,
                ),
            decreases body@.len() - i,
        {
            match self.eval_at(&body[i], fuel) {
                Err(e) => {
                    return Err(e);
                },
                Ok(_) => {},
            }
            i = i + 1;
        }
        self.eval_at(&body[i], fuel)
    }

    /// Evaluates conjunction operands with short-circuiting.
    #[verifier::loop_isolation(false)]
    fn eval_and_exec(&mut self, ch: &Vec<Node>, fuel: u64) -> (r: Result<Value, EvalError>)
        requires
            old(self).env@.len() > 0,
            ch@.len() >= 1,
        ensures
            final(self).limit == old(self).limit,
            final(self).env@.len() == old(self).env@.len(),
            ({
                let (rv, st2) = eval_and_spec(
                    nodes_view(ch@),
                    1,
                    state_of(*old(self)),
                    fuel as nat,
                );
                state_of(*final(self)) == st2 && (match (r, rv) {
                    (Ok(v), Ok(vv)) => v@ == vv,
                    (Err(e1), Err(e2)) => e1 == e2,
                    _ => false,
                })
            }),
        decreases fuel, 1int, 0int,
    {
        let ghost cv = nodes_view(ch@);
        let ghost st0 = state_of(*self);
        proof {
            lemma_nodes_view_props(ch@);
        }
        let mut i: usize = 1;
        while i < ch.len()
            invariant
                1 <= i <= ch@.len(),
                self.env@.len() == old(self).env@.len(),
                self.limit == old(self).limit,
                eval_and_spec(cv, 1, st0, fuel as nat) == eval_and_spec(
                    cv,
                    i as int,
                    state_of(*self),
                    fuel as nat,
                ),
            decreases ch@.len() - i,
        {
            match self.eval_at(&ch[i], fuel) {
                Err(e) => {
                    return Err(e);
                },
                Ok(v) => {
                    if !v.to_bool() {
                        return Ok(Value::Bool(false));
                    }
                },
            }
            i = i + 1;
        }
        Ok(Value::Bool(true))
    }

    /// Evaluates disjunction operands with short-circuiting.
    #[verifier::loop_isolation(false)]
    fn eval_or_exec(&mut self, ch: &Vec<Node>, fuel: u64) -> (r: Result<Value, EvalError>)
        requires
            old(self).env@.len() > 0,
            ch@.len() >= 1,
        ensures
            final(self).limit == old(self).limit,
            final(self).env@.len() == old(self).env@.len(),
            ({
                let (rv, st2) = eval_or_spec(
                    nodes_view(ch@),
                    1,
                    state_of(*old(self)),
                    fuel as nat,
                );
                state_of(*final(self)) == st2 && (match (r, rv) {
                    (Ok(v), Ok(vv)) => v@ == vv,
                    (Err(e1), Err(e2)) => e1 == e2,
                    _ => false,
                })
            }),
        decreases fuel, 1int, 0int,
    {
        let ghost cv = nodes_view(ch@);
        let ghost st0 = state_of(*self);
        proof {
            lemma_nodes_view_props(ch@);
        }
        let mut i: usize = 1;
        while i < ch.len()
            invariant
                1 <= i <= ch@.len(),
                self.env@.len() == old(self).env@.len(),
                self.limit == old(self).limit,
                eval_or_spec(cv, 1, st0, fuel as nat) == eval_or_spec(
                    cv,
                    i as int,
                    state_of(*self),
                    fuel as nat,
                ),
            decreases ch@.len() - i,
        {
            match self.eval_at(&ch[i], fuel) {
                Err(e) => {
                    return Err(e);
                },
                Ok(v) => {
                    if v.to_bool() {
                        return Ok(Value::Bool(true));
                    }
                },
            }
            i = i + 1;
        }
        Ok(Value::Bool(false))
    }

    /// Builds a closure from a `fn` form: the parameter list must be a list
    /// of symbols; the remaining forms become the body.
    #[verifier::loop_isolation(false)]
    fn eval_fn_exec(&mut self, ch: &Vec<Node>) -> (r: Result<Value, EvalError>)
        ensures
            *final(self) == *old(self),
            ({
                let (rv, st2) = eval_fn_spec(nodes_view(ch@), state_of(*old(self)));
                state_of(*final(self)) == st2 && (match (r, rv) {
                    (Ok(v), Ok(vv)) => v@ == vv,
                    (Err(e1), Err(e2)) => e1 == e2,
                    _ => false,
                })
            }),
    {
        let ghost cv = nodes_view(ch@);
        proof {
            lemma_nodes_view_props(ch@);
        }
        if ch.len() < 2 {
            return Err(EvalError::Syntax);
        }
        let items: &Vec<Node> = match &ch[1] {
            Node::Expr(items) => items,
            Node::List(items) => items,
            _ => {
                return Err(EvalError::Syntax);
            },
        };
        let ghost iv = nodes_view(items@);
        proof {
            lemma_nodes_view_props(items@);
            assert(iv.skip(0) =~= iv);
        }
        let mut params: Vec<Vec<u8>> = Vec::new();
        let mut i: usize = 0;
        proof {
            assert(strs_view(params@) =~= Seq::<Seq<u8>>::empty());
            if let Some(rest) = symbols_of(iv) {
                assert(strs_view(params@) + rest =~= rest);
            }
        }
        while i < items.len()
            invariant
                0 <= i <= items@.len(),
                symbols_of(iv) == (match symbols_of(iv.skip(i as int)) {
                    Some(rest) => Some(strs_view(params@) + rest),
                    None => None::<Seq<Seq<u8>>>,
                }),
            decreases items@.len() - i,
        {
            proof {
                assert(iv.skip(i as int)[0] == iv[i as int]);
                assert(iv.skip(i as int).drop_first() =~= iv.skip(i + 1));
            }
            match &items[i] {
                Node::Symbol(s) => {
                    let name = copy_bytes(s);
                    proof {
                        lemma_strs_view_props(params@);
                        lemma_strs_view_props(params@.push(name));
                        assert(strs_view(params@.push(name)) =~= strs_view(params@).push(
                            name@,
                        ));
                        if let Some(rest) = symbols_of(iv.skip(i + 1)) {
                            assert(strs_view(params@) + (seq![s@] + rest) =~= (strs_view(params@)
                                + seq![s@]) + rest);
                            assert(strs_view(params@).push(name@) =~= strs_view(params@) + seq![
                                s@,
                            ]);
                        }
                    }
                    params.push(name);
                },
                _ => {
                    return Err(EvalError::Syntax);
                },
            }
            i = i + 1;
        }
        proof {
            assert(iv.skip(items@.len() as int) =~= Seq::<NodeV>::empty());
            if let Some(rest) = symbols_of(iv.skip(items@.len() as int)) {
                assert(strs_view(params@) + rest =~= strs_view(params@));
            }
        }
        let mut body: Vec<Node> = Vec::new();
        let mut k: usize = 2;
        while k < ch.len()
            invariant
                2 <= k <= ch@.len(),
                body@.len() == k - 2,
                forall|j: int|
                    0 <= j < k - 2 ==> crate::parser::node_view(body@[j]) == cv[j + 2],
            decreases ch@.len() - k,
        {
            let c = node_clone(&ch[k]);
            body.push(c);
            k = k + 1;
        }
        proof {
            lemma_nodes_view_props(body@);
            assert(nodes_view(body@) =~= cv.skip(2));
        }
        Ok(Value::Func(params, body))
    }

    /// Applies a callee value to the operand forms of a call.
    #[verifier::loop_isolation(false)]
    fn apply_exec(&mut self, callee: Value, ch: &Vec<Node>, fuel: u64) -> (r: Result<
        Value,
        EvalError,
    >)
        requires
            old(self).env@.len() > 0,
            ch@.len() >= 1,
        ensures
            final(self).limit == old(self).limit,
            final(self).env@.len() == old(self).env@.len(),
            ({
                let (rv, st2) = apply_spec(
                    callee@,
                    nodes_view(ch@),
                    state_of(*old(self)),
                    fuel as nat,
                );
                state_of(*final(self)) == st2 && (match (r, rv) {
                    (Ok(v), Ok(vv)) => v@ == vv,
                    (Err(e1), Err(e2)) => e1 == e2,
                    _ => false,
                })
            }),
        decreases fuel, 2int, 0int,
    {
        let ghost cv = nodes_view(ch@);
        let ghost st0 = state_of(*self);
        proof {
            lemma_nodes_view_props(ch@);
        }
        match callee {
            Value::ExternalFn(f) => {
                let args = match self.eval_args_exec(ch, 1, fuel) {
                    Ok(args) => args,
                    Err(e) => {
                        return Err(e);
                    },
                };
                run_native(f, &args, &mut self.out)
            },
            Value::Func(ps, body) => {
                let ghost psv = strs_view(ps@);
                proof {
                    lemma_strs_view_props(ps@);
                }
                if ch.len() - 1 != ps.len() {
                    return Err(EvalError::Arity);
                }
                self.env.enter();
                let ghost st1 = st_push(st0);
                proof {
                    assert(state_of(*self) == st1);
                }
                let mut k: usize = 0;
                while k < ps.len()
                    invariant
                        0 <= k <= ps@.len(),
                        ch@.len() == ps@.len() + 1,
                        self.env@.len() == old(self).env@.len() + 1,
                        self.limit == old(self).limit,
                        bind_args_spec(psv, cv, 0, st1, fuel as nat) == bind_args_spec(
                            psv,
                            cv,
                            k as int,
                            state_of(*self),
                            fuel as nat,
                        ),
                    decreases ps@.len() - k,
                {
                    match self.eval_at(&ch[k + 1], fuel) {
                        Err(e) => {
                            self.env.exit();
                            return Err(e);
                        },
                        Ok(v) => {
                            let name = copy_bytes(&ps[k]);
                            self.env.define(name, v);
                        },
                    }
                    k = k + 1;
                }
                let res = self.eval_body_exec(&body, fuel);
                self.env.exit();
                res
            },
            _ => Err(EvalError::NotCallable),
        }
    }
}

/// Tokenizes, parses and evaluates one unit of source text, returning the
/// values of its top-level forms or the first error of any stage.
#[verifier::loop_isolation(false)]
pub fn process_line(interp: &mut Interpreter, line: &Vec<u8>) -> (r: Result<Vec<Value>, Error>)
    requires
        old(interp).env@.len() > 0,
    ensures
        final(interp).limit == old(interp).limit,
        final(interp).env@.len() == old(interp).env@.len(),
        match lex_from(line@, 0) {
            Err(e) => r == Err::<Vec<Value>, Error>(Error::Lex(e)) && *final(interp) == *old(
                interp,
            ),
            Ok(ts) => match parse_all(ts, 0) {
                Err(e) => r == Err::<Vec<Value>, Error>(Error::Parse(e)) && *final(interp)
                    == *old(interp),
                Ok(ns) => ({
                    let (rv, st2) = eval_many_spec(
                        ns,
                        0,
                        state_of(*old(interp)),
                        old(interp).limit as nat,
                        Seq::empty(),
                    );
                    state_of(*final(interp)) == st2 && (match (r, rv) {
                        (Ok(vs), Ok(vv)) => values_view(vs@) == vv,
                        (Err(Error::Eval(e1)), Err(e2)) => e1 == e2,
                        _ => false,
                    })
                }),
            },
        },
{
    let mut tokenizer = Tokenizer::new(copy_bytes(line));
    let tokens = match tokenizer.collect() {
        Ok(tokens) => tokens,
        Err(e) => {
            return Err(Error::Lex(e));
        },
    };
    let mut parser = Parser::new(tokens);
    let nodes = match parser.collect() {
        Ok(nodes) => nodes,
        Err(e) => {
            return Err(Error::Parse(e));
        },
    };
    let ghost nsv = nodes_view(nodes@);
    let ghost st0 = state_of(*interp);
    proof {
        lemma_nodes_view_props(nodes@);
    }
    let fuel = interp.limit;
    let mut values: Vec<Value> = Vec::new();
    let mut i: usize = 0;
    proof {
        assert(values_view(values@) =~= Seq::<ValueV>::empty());
    }
    while i < nodes.len()
        invariant
            0 <= i <= nodes@.len(),
            fuel == old(interp).limit,
            interp.limit == old(interp).limit,
            interp.env@.len() == old(interp).env@.len(),
            eval_many_spec(nsv, 0, st0, fuel as nat, Seq::empty()) == eval_many_spec(
                nsv,
                i as int,
                state_of(*interp),
                fuel as nat,
                values_view(values@),
            ),
        decreases nodes@.len() - i,
    {
        match interp.eval(&nodes[i]) {
            Err(e) => {
                return Err(Error::Eval(e));
            },
            Ok(v) => {
                proof {
                    lemma_values_view_props(values@);
                    lemma_values_view_props(values@.push(v));
                    assert(values_view(values@.push(v)) =~= values_view(values@).push(v@));
                }
                values.push(v);
            },
        }
        i = i + 1;
    }
    Ok(values)
}


/// What evaluation may change of a scope stack: the count of scopes is
/// kept, and every scope above the global one is left as it was.
pub open spec fn frame_ok(st: StateV, st2: StateV) -> bool {
    st2.scopes.len() == st.scopes.len() && (forall|i: int|
        1 <= i < st.scopes.len() ==> st2.scopes[i] == st.scopes[i])
}

/// What operand binding may change of a scope stack: the count is kept,
/// and every scope strictly between the global one and the top one is left
/// as it was.
pub open spec fn frame_bind(st: StateV, st2: StateV) -> bool {
    st2.scopes.len() == st.scopes.len() && (forall|i: int|
        1 <= i < st.scopes.len() - 1 ==> st2.scopes[i] == st.scopes[i])
}

/// Every scope entered during an evaluation is left again, on success and
/// on error alike: evaluation keeps the scope count and touches no scope
/// but the global one.
pub proof fn lemma_eval_frame(n: NodeV, st: StateV, fuel: nat)
    ensures
        frame_ok(st, eval_spec(n, st, fuel).1),
    decreases fuel, 0int, 0int,
{
    if fuel == 0 {
    } else {
        let f1 = (fuel - 1) as nat;
        match n {
            NodeV::List(ch) => {
                lemma_eval_args_frame(ch, 0, st, f1, Seq::empty());
            },
            NodeV::Mapping(en) => {
                lemma_eval_entries_frame(en, 0, st, f1, Seq::empty());
            },
            NodeV::Expr(ch) => {
                if ch.len() == 0 {
                } else {
                    match ch[0] {
                        NodeV::Symbol(name) => {
                            let sp = special_of(name);
                            if sp == Special::SFn {
                            } else if sp == Special::SDef {
                                if ch.len() == 3 {
                                    match ch[1] {
                                        NodeV::Symbol(k) => {
                                            lemma_eval_frame(ch[2], st, f1);
                                        },
                                        _ => {},
                                    }
                                }
                            } else if sp == Special::SIf {
                                if ch.len() == 3 || ch.len() == 4 {
                                    lemma_eval_frame(ch[1], st, f1);
                                    let (r, st2) = eval_spec(ch[1], st, f1);
                                    if let Ok(c) = r {
                                        if truthy(c) {
                                            lemma_eval_frame(ch[2], st2, f1);
                                        } else if ch.len() == 4 {
                                            lemma_eval_frame(ch[3], st2, f1);
                                        }
                                    }
                                }
                            } else if sp == Special::SAnd {
                                lemma_eval_and_frame(ch, 1, st, f1);
                            } else if sp == Special::SOr {
                                lemma_eval_or_frame(ch, 1, st, f1);
                            } else {
                                match env_lookup(st.scopes, name) {
                                    Some(v) => {
                                        lemma_apply_frame(v, ch, st, f1);
                                    },
                                    None => {},
                                }
                            }
                        },
                        _ => {
                            lemma_eval_frame(ch[0], st, f1);
                            let (r, st2) = eval_spec(ch[0], st, f1);
                            if let Ok(v) = r {
                                lemma_apply_frame(v, ch, st2, f1);
                            }
                        },
                    }
                }
            },
            _ => {},
        }
    }
}

/// Operand-list evaluation keeps the frame.
pub proof fn lemma_eval_args_frame(
    ns: Seq<NodeV>,
    from: int,
    st: StateV,
    fuel: nat,
    acc: Seq<ValueV>,
)
    ensures
        frame_ok(st, eval_args_spec(ns, from, st, fuel, acc).1),
    decreases fuel, 1int, ns.len() - from,
{
    if from < 0 || from >= ns.len() {
    } else {
        lemma_eval_frame(ns[from], st, fuel);
        let (r, st2) = eval_spec(ns[from], st, fuel);
        if let Ok(v) = r {
            lemma_eval_args_frame(ns, from + 1, st2, fuel, acc.push(v));
        }
    }
}

/// Map-binding evaluation keeps the frame.
pub proof fn lemma_eval_entries_frame(
    en: Seq<(Seq<u8>, NodeV)>,
    from: int,
    st: StateV,
    fuel: nat,
    acc: Seq<(Seq<u8>, ValueV)>,
)
    ensures
        frame_ok(st, eval_entries_spec(en, from, st, fuel, acc).1),
    decreases fuel, 1int, en.len() - from,
{
    if from < 0 || from >= en.len() {
    } else {
        lemma_eval_frame(en[from].1, st, fuel);
        let (r, st2) = eval_spec(en[from].1, st, fuel);
        if let Ok(v) = r {
            lemma_eval_entries_frame(en, from + 1, st2, fuel, assoc_set(acc, en[from].0, v));
        }
    }
}

/// Body evaluation keeps the frame.
pub proof fn lemma_eval_body_frame(body: Seq<NodeV>, from: int, st: StateV, fuel: nat)
    ensures
        frame_ok(st, eval_body_spec(body, from, st, fuel).1),
    decreases fuel, 1int, body.len() - from,
{
    if from < 0 || from >= body.len() {
    } else {
        lemma_eval_frame(body[from], st, fuel);
        let (r, st2) = eval_spec(body[from], st, fuel);
        if let Ok(v) = r {
            if from != body.len() - 1 {
                lemma_eval_body_frame(body, from + 1, st2, fuel);
            }
        }
    }
}

/// Conjunction evaluation keeps the frame.
pub proof fn lemma_eval_and_frame(ns: Seq<NodeV>, from: int, st: StateV, fuel: nat)
    ensures
        frame_ok(st, eval_and_spec(ns, from, st, fuel).1),
    decreases fuel, 1int, ns.len() - from,
{
    if from < 0 || from >= ns.len() {
    } else {
        lemma_eval_frame(ns[from], st, fuel);
        let (r, st2) = eval_spec(ns[from], st, fuel);
        if let Ok(v) = r {
            if truthy(v) {
                lemma_eval_and_frame(ns, from + 1, st2, fuel);
            }
        }
    }
}

/// Disjunction evaluation keeps the frame.
pub proof fn lemma_eval_or_frame(ns: Seq<NodeV>, from: int, st: StateV, fuel: nat)
    ensures
        frame_ok(st, eval_or_spec(ns, from, st, fuel).1),
    decreases fuel, 1int, ns.len() - from,
{
    if from < 0 || from >= ns.len() {
    } else {
        lemma_eval_frame(ns[from], st, fuel);
        let (r, st2) = eval_spec(ns[from], st, fuel);
        if let Ok(v) = r {
            if !truthy(v) {
                lemma_eval_or_frame(ns, from + 1, st2, fuel);
            }
        }
    }
}

/// Operand binding keeps the count and the scopes between global and top.
pub proof fn lemma_bind_frame(ps: Seq<Seq<u8>>, ch: Seq<NodeV>, k: int, st: StateV, fuel: nat)
    ensures
        frame_bind(st, bind_args_spec(ps, ch, k, st, fuel).1),
    decreases fuel, 1int, ps.len() - k,
{
    if k < 0 || k >= ps.len() || k + 1 >= ch.len() {
    } else {
        lemma_eval_frame(ch[k + 1], st, fuel);
        let (r, st2) = eval_spec(ch[k + 1], st, fuel);
        if let Ok(v) = r {
            lemma_bind_frame(ps, ch, k + 1, st_define_top(st2, ps[k], v), fuel);
        }
    }
}

/// Application keeps the frame: a native call leaves the scopes alone, and
/// a closure call leaves the scope it entered on every exit path, so the
/// count of scopes entered equals the count of scopes left.
pub proof fn lemma_apply_frame(callee: ValueV, ch: Seq<NodeV>, st: StateV, fuel: nat)
    ensures
        frame_ok(st, apply_spec(callee, ch, st, fuel).1),
    decreases fuel, 2int, 0int,
{
    match callee {
        ValueV::ExternalFn(f) => {
            lemma_eval_args_frame(ch, 1, st, fuel, Seq::empty());
        },
        ValueV::Func(ps, body) => {
            if ch.len() - 1 != ps.len() {
            } else {
                let st1 = st_push(st);
                lemma_bind_frame(ps, ch, 0, st1, fuel);
                let (b, st2) = bind_args_spec(ps, ch, 0, st1, fuel);
                match b {
                    Some(e) => {
                        assert(frame_ok(st, st_pop(st2)));
                    },
                    None => {
                        lemma_eval_body_frame(body, 0, st2, fuel);
                        let (r, st3) = eval_body_spec(body, 0, st2, fuel);
                        assert(frame_ok(st, st_pop(st3)));
                    },
                }
            }
        },
        _ => {},
    }
}

/// Calling a closure with the wrong number of operands is an arity error
/// and leaves the state untouched; the operands are not evaluated.
pub proof fn lemma_apply_arity(ps: Seq<Seq<u8>>, body: Seq<NodeV>, ch: Seq<NodeV>, st: StateV, fuel: nat)
    requires
        ch.len() - 1 != ps.len(),
    ensures
        apply_spec(ValueV::Func(ps, body), ch, st, fuel) == (
            Err::<ValueV, EvalError>(EvalError::Arity),
            st,
        ),
{
}

/// A conjunction of no operands is true.
pub proof fn lemma_and_no_operands(ns: Seq<NodeV>, st: StateV, fuel: nat)
    requires
        ns.len() <= 1,
    ensures
        eval_and_spec(ns, 1, st, fuel) == (Ok::<ValueV, EvalError>(ValueV::Bool(true)), st),
{
}

/// A disjunction of no operands is false.
pub proof fn lemma_or_no_operands(ns: Seq<NodeV>, st: StateV, fuel: nat)
    requires
        ns.len() <= 1,
    ensures
        eval_or_spec(ns, 1, st, fuel) == (Ok::<ValueV, EvalError>(ValueV::Bool(false)), st),
{
}

} // verus!
