//! Syntactic analysis: tokens to S-expression forms.
//!
//! Grammar: atoms map one-to-one from their tokens; `( form* )` is a call
//! form; `{ ... }` is a collection literal whose shape is fixed by its first
//! element — `{:}` an empty map, `{}` an empty list, a leading `symbol :`
//! pair a map of `symbol : form` pairs, anything else a list of bare forms.
//! Mixing the two shapes in one literal is a parse error. Map keys are raw
//! names; later pairs with the same key replace earlier ones.
//!
//! The spec function [`parse_all`] defines the form sequence of a token
//! sequence; [`Parser::collect`] computes it and is proved to match.

use vstd::prelude::*;

use crate::assoc::{assoc_set, bytes_eq, lemma_assoc_set_found, lemma_assoc_set_missing};
use crate::errors::ParseError;
use crate::tokenizer::{tokens_deep, Token, TokenV};

verus! {

/// One parsed form. Collections hold their children in parse order; a map
/// literal holds `name : form` bindings in insertion order.
#[derive(Debug)]
pub enum Node {
    Str(Vec<u8>),
    Int(i64),
    Real(i64, u64),
    Symbol(Vec<u8>),
    Bool(bool),
    Nil,
    List(Vec<Node>),
    Mapping(Vec<(Vec<u8>, Node)>),
    Expr(Vec<Node>),
}

/// Mathematical image of a `Node`.
pub enum NodeV {
    Str(Seq<u8>),
    Int(i64),
    Real(i64, u64),
    Symbol(Seq<u8>),
    Bool(bool),
    Nil,
    List(Seq<NodeV>),
    Mapping(Seq<(Seq<u8>, NodeV)>),
    Expr(Seq<NodeV>),
}

/// The image of one form.
pub open spec fn node_view(n: Node) -> NodeV
    decreases n,
{
    match n {
        Node::Str(s) => NodeV::Str(s@),
        Node::Int(i) => NodeV::Int(i),
        Node::Real(m, sc) => NodeV::Real(m, sc),
        Node::Symbol(s) => NodeV::Symbol(s@),
        Node::Bool(b) => NodeV::Bool(b),
        Node::Nil => NodeV::Nil,
        Node::List(ch) => NodeV::List(nodes_view(ch@)),
        Node::Mapping(en) => NodeV::Mapping(node_entries_view(en@)),
        Node::Expr(ch) => NodeV::Expr(nodes_view(ch@)),
    }
}

/// The image of a sequence of forms.
pub open spec fn nodes_view(ns: Seq<Node>) -> Seq<NodeV>
    decreases ns,
{
    if ns.len() == 0 {
        Seq::empty()
    } else {
        seq![node_view(ns[0])] + nodes_view(ns.drop_first())
    }
}

/// The image of a sequence of map bindings.
pub open spec fn node_entries_view(en: Seq<(Vec<u8>, Node)>) -> Seq<(Seq<u8>, NodeV)>
    decreases en,
{
    if en.len() == 0 {
        Seq::empty()
    } else {
        seq![(en[0].0@, node_view(en[0].1))] + node_entries_view(en.drop_first())
    }
}

impl View for Node {
    type V = NodeV;

    open spec fn view(&self) -> NodeV {
        node_view(*self)
    }
}

/// The image of a form sequence is pointwise the image of its forms.
pub proof fn lemma_nodes_view_props(ns: Seq<Node>)
    ensures
        nodes_view(ns).len() == ns.len(),
        forall|i: int| 0 <= i < ns.len() ==> nodes_view(ns)[i] == node_view(ns[i]),
    decreases ns.len(),
{
    if ns.len() > 0 {
        lemma_nodes_view_props(ns.drop_first());
    }
}

/// The image of a binding sequence is pointwise the image of its bindings.
pub proof fn lemma_node_entries_view_props(en: Seq<(Vec<u8>, Node)>)
    ensures
        node_entries_view(en).len() == en.len(),
        forall|i: int|
            0 <= i < en.len() ==> node_entries_view(en)[i] == (en[i].0@, node_view(en[i].1)),
    decreases en.len(),
{
    if en.len() > 0 {
        lemma_node_entries_view_props(en.drop_first());
    }
}

/// A resume position brought back into the well-formed range: at least `lo`
/// and at most `len`.
pub open spec fn clamp_pos(len: int, j: int, lo: int) -> int {
    let c = if j < lo {
        lo
    } else {
        j
    };
    if c > len {
        len
    } else {
        c
    }
}

/// Parses the one form that starts at `i`. Returns the form and the
/// position after it; the position is meaningful only on success.
pub open spec fn parse_form(ts: Seq<TokenV>, i: int) -> (Result<NodeV, ParseError>, int)
    decreases ts.len() - i, 0int,
{
    if i < 0 || i >= ts.len() {
        (Err(ParseError::UnexpectedEnd), i)
    } else {
        match ts[i] {
            TokenV::Str(s) => (Ok(NodeV::Str(s)), i + 1),
            TokenV::Int(n) => (Ok(NodeV::Int(n)), i + 1),
            TokenV::Real(m, sc) => (Ok(NodeV::Real(m, sc)), i + 1),
            TokenV::Bool(b) => (Ok(NodeV::Bool(b)), i + 1),
            TokenV::Symbol(s) => (Ok(NodeV::Symbol(s)), i + 1),
            TokenV::Nil => (Ok(NodeV::Nil), i + 1),
            TokenV::LeftBracket => parse_expr_items(ts, i + 1, Seq::empty()),
            TokenV::LeftCurlyBracket => parse_coll(ts, i + 1),
            _ => (Err(ParseError::UnexpectedToken), i + 1),
        }
    }
}

/// Parses call-form operands up to the closing `)`, `acc` holding those
/// already parsed.
pub open spec fn parse_expr_items(ts: Seq<TokenV>, i: int, acc: Seq<NodeV>) -> (
    Result<NodeV, ParseError>,
    int,
)
    decreases ts.len() - i, 1int,
{
    if i < 0 || i >= ts.len() {
        (Err(ParseError::UnexpectedEnd), i)
    } else if ts[i] == TokenV::RightBracket {
        (Ok(NodeV::Expr(acc)), i + 1)
    } else {
        let (r, j) = parse_form(ts, i);
        match r {
            Err(e) => (Err(e), j),
            Ok(n) => parse_expr_items(ts, clamp_pos(ts.len() as int, j, i + 1), acc.push(n)),
        }
    }
}

/// Parses a collection literal, the opening `{` already consumed. The first
/// element fixes the shape.
pub open spec fn parse_coll(ts: Seq<TokenV>, i: int) -> (Result<NodeV, ParseError>, int)
    decreases ts.len() - i, 1int,
{
    if i < 0 || i >= ts.len() {
        (Err(ParseError::UnexpectedEnd), i)
    } else if ts[i] == TokenV::Colon {
        if i + 1 < ts.len() && ts[i + 1] == TokenV::RightCurlyBracket {
            (Ok(NodeV::Mapping(Seq::empty())), i + 2)
        } else {
            (Err(ParseError::IllegalCollection), i + 1)
        }
    } else if ts[i] == TokenV::RightCurlyBracket {
        (Ok(NodeV::List(Seq::empty())), i + 1)
    } else {
        let (r, j) = parse_form(ts, i);
        match r {
            Err(e) => (Err(e), j),
            Ok(first) => {
                let j1 = clamp_pos(ts.len() as int, j, i + 1);
                if j1 < ts.len() && ts[j1] == TokenV::Colon {
                    match first {
                        NodeV::Symbol(k) => {
                            let (rv, j2) = parse_form(ts, j1 + 1);
                            match rv {
                                Err(e) => (Err(e), j2),
                                Ok(v) => parse_map_rest(
                                    ts,
                                    clamp_pos(ts.len() as int, j2, j1 + 2),
                                    assoc_set(Seq::empty(), k, v),
                                ),
                            }
                        },
                        _ => (Err(ParseError::IllegalCollection), j1),
                    }
                } else {
                    parse_list_rest(ts, j1, seq![first])
                }
            },
        }
    }
}

/// Parses the remaining `symbol : form` pairs of a map literal up to the
/// closing `}`.
pub open spec fn parse_map_rest(ts: Seq<TokenV>, i: int, acc: Seq<(Seq<u8>, NodeV)>) -> (
    Result<NodeV, ParseError>,
    int,
)
    decreases ts.len() - i, 1int,
{
    if i < 0 || i >= ts.len() {
        (Err(ParseError::UnexpectedEnd), i)
    } else if ts[i] == TokenV::RightCurlyBracket {
        (Ok(NodeV::Mapping(acc)), i + 1)
    } else {
        match ts[i] {
            TokenV::Symbol(k) => {
                if i + 1 >= ts.len() || ts[i + 1] != TokenV::Colon {
                    (Err(ParseError::IllegalMap), i + 1)
                } else {
                    let (rv, j) = parse_form(ts, i + 2);
                    match rv {
                        Err(e) => (Err(e), j),
                        Ok(v) => parse_map_rest(
                            ts,
                            clamp_pos(ts.len() as int, j, i + 3),
                            assoc_set(acc, k, v),
                        ),
                    }
                }
            },
            _ => (Err(ParseError::IllegalMap), i + 1),
        }
    }
}

/// Parses the remaining bare forms of a list literal up to the closing `}`.
pub open spec fn parse_list_rest(ts: Seq<TokenV>, i: int, acc: Seq<NodeV>) -> (
    Result<NodeV, ParseError>,
    int,
)
    decreases ts.len() - i, 1int,
{
    if i < 0 || i >= ts.len() {
        (Err(ParseError::UnexpectedEnd), i)
    } else if ts[i] == TokenV::RightCurlyBracket {
        (Ok(NodeV::List(acc)), i + 1)
    } else {
        let (r, j) = parse_form(ts, i);
        match r {
            Err(e) => (Err(e), j),
            Ok(n) => parse_list_rest(ts, clamp_pos(ts.len() as int, j, i + 1), acc.push(n)),
        }
    }
}

/// The form sequence of the tokens from `i` on: the meaning of the whole
/// parser.
pub open spec fn parse_all(ts: Seq<TokenV>, i: int) -> Result<Seq<NodeV>, ParseError>
    decreases ts.len() - i,
{
    if i < 0 || i >= ts.len() {
        Ok(Seq::empty())
    } else {
        let (r, j) = parse_form(ts, i);
        match r {
            Err(e) => Err(e),
            Ok(n) => match parse_all(ts, clamp_pos(ts.len() as int, j, i + 1)) {
                Ok(ns) => Ok(seq![n] + ns),
                Err(e) => Err(e),
            },
        }
    }
}

/// Copies a byte string.
pub fn copy_bytes(v: &Vec<u8>) -> (r: Vec<u8>)
    ensures
        r@ == v@,
{
    let mut out: Vec<u8> = Vec::new();
    let mut i: usize = 0;
    while i < v.len()
        invariant
            0 <= i <= v@.len(),
            out@ == v@.subrange(0, i as int),
        decreases v@.len() - i,
    {
        assert(v@.subrange(0, i as int).push(v@[i as int]) =~= v@.subrange(0, i + 1));
        out.push(v[i]);
        i = i + 1;
    }
    assert(v@.subrange(0, v@.len() as int) =~= v@);
    out
}

/// Binds `k` to `v` in a map literal under construction: the first binding
/// of `k` is replaced in place, or a new binding is appended.
#[verifier::loop_isolation(false)]
fn node_map_set(entries: &mut Vec<(Vec<u8>, Node)>, k: Vec<u8>, v: Node)
    ensures
        node_entries_view(final(entries)@) == assoc_set(
            node_entries_view(old(entries)@),
            k@,
            node_view(v),
        ),
{
    let ghost env0 = node_entries_view(entries@);
    proof {
        lemma_node_entries_view_props(entries@);
    }
    let mut idx: usize = 0;
    while idx < entries.len()
        invariant
            0 <= idx <= entries@.len(),
            env0 == node_entries_view(entries@),
            forall|i: int| 0 <= i < idx ==> entries@[i].0@ != k@,
        decreases entries@.len() - idx,
    {
        proof {
            lemma_node_entries_view_props(entries@);
        }
        if bytes_eq(&entries[idx].0, &k) {
            let ghost j = idx as int;
            proof {
                lemma_node_entries_view_props(entries@);
                lemma_assoc_set_found(env0, k@, node_view(v), j);
            }
            entries[idx] = (k, v);
            proof {
                lemma_node_entries_view_props(entries@);
                assert(node_entries_view(entries@) =~= env0.update(j, (k@, node_view(v))));
            }
            return ;
        }
        idx = idx + 1;
    }
    proof {
        lemma_node_entries_view_props(entries@);
        lemma_assoc_set_missing(env0, k@, node_view(v));
    }
    entries.push((k, v));
    proof {
        lemma_node_entries_view_props(entries@);
        assert(node_entries_view(entries@) =~= env0.push((k@, node_view(v))));
    }
}

/// The parser: a cursor over the token vector.
pub struct Parser {
    pub tokens: Vec<Token>,
    pub pos: usize,
}

impl Parser {
    /// Makes a parser standing at the start of the tokens.
    pub fn new(tokens: Vec<Token>) -> (r: Parser)
        ensures
            r.tokens@ == tokens@,
            r.pos == 0,
    {
        Parser { tokens, pos: 0 }
    }

    /// Parses every remaining form, or the first parse error.
    #[verifier::rlimit(50)]
    #[verifier::loop_isolation(false)]
    pub fn collect(&mut self) -> (r: Result<Vec<Node>, ParseError>)
        requires
            old(self).pos <= old(self).tokens@.len(),
        ensures
            final(self).tokens@ == old(self).tokens@,
            match (r, parse_all(tokens_deep(old(self).tokens@), old(self).pos as int)) {
                (Ok(v), Ok(ns)) => nodes_view(v@) == ns,
                (Err(e1), Err(e2)) => e1 == e2,
                _ => false,
            },
    {
        let ghost ts = tokens_deep(self.tokens@);
        let ghost i0 = self.pos as int;
        let mut nodes: Vec<Node> = Vec::new();
        proof {
            assert(nodes_view(nodes@) =~= Seq::<NodeV>::empty());
            if let Ok(ns) = parse_all(ts, i0) {
                assert(nodes_view(nodes@) + ns =~= ns);
            }
        }
        loop
            invariant
                ts == tokens_deep(old(self).tokens@),
                i0 == old(self).pos as int,
                self.tokens@ == old(self).tokens@,
                self.pos <= self.tokens@.len(),
                parse_all(ts, i0) == (match parse_all(ts, self.pos as int) {
                    Ok(ns) => Ok(nodes_view(nodes@) + ns),
                    Err(e) => Err::<Seq<NodeV>, ParseError>(e),
                }),
            decreases self.tokens@.len() - self.pos,
        {
            if self.pos >= self.tokens.len() {
                assert(parse_all(ts, self.pos as int) == Ok::<Seq<NodeV>, ParseError>(
                    Seq::empty(),
                ));
                assert(nodes_view(nodes@) + Seq::<NodeV>::empty() =~= nodes_view(nodes@));
                return Ok(nodes);
            }
            let ghost p = self.pos as int;
            match self.parse_form_exec() {
                Err(e) => {
                    return Err(e);
                },
                Ok(n) => {
                    proof {
                        let (rv, j) = parse_form(ts, p);
                        if let Ok(nv) = rv {
                            assert(clamp_pos(ts.len() as int, j, p + 1) == self.pos as int);
                            if let Ok(ns_rest) = parse_all(ts, self.pos as int) {
                                lemma_nodes_view_props(nodes@);
                                lemma_nodes_view_props(nodes@.push(n));
                                assert(nodes_view(nodes@.push(n)) =~= nodes_view(nodes@) + seq![
                                    node_view(n),
                                ]);
                                assert(nodes_view(nodes@) + (seq![nv] + ns_rest) =~= (nodes_view(
                                    nodes@,
                                ) + seq![nv]) + ns_rest);
                            } else {
                                lemma_nodes_view_props(nodes@);
                                lemma_nodes_view_props(nodes@.push(n));
                            }
                        }
                    }
                    nodes.push(n);
                },
            }
        }
    }

    /// Parses the one form that starts at the cursor.
    fn parse_form_exec(&mut self) -> (r: Result<Node, ParseError>)
        requires
            old(self).pos <= old(self).tokens@.len(),
        ensures
            final(self).tokens@ == old(self).tokens@,
            final(self).pos <= final(self).tokens@.len(),
            match (r, parse_form(tokens_deep(old(self).tokens@), old(self).pos as int)) {
                (Ok(n), (Ok(nv), j)) => node_view(n) == nv && final(self).pos as int == j && old(
                    self,
                ).pos < final(self).pos,
                (Err(e1), (Err(e2), _)) => e1 == e2,
                _ => false,
            },
        decreases old(self).tokens@.len() - old(self).pos, 0int,
    {
        let ghost ts = tokens_deep(self.tokens@);
        let ghost i = self.pos as int;
        if self.pos >= self.tokens.len() {
            return Err(ParseError::UnexpectedEnd);
        }
        assert(ts[i] == self.tokens@[i]@);
        let node: Node = match &self.tokens[self.pos] {
            Token::Str(s) => Node::Str(copy_bytes(s)),
            Token::Int(n) => Node::Int(*n),
            Token::Real(m, sc) => Node::Real(*m, *sc),
            Token::Bool(b) => Node::Bool(*b),
            Token::Symbol(s) => Node::Symbol(copy_bytes(s)),
            Token::Nil => Node::Nil,
            Token::LeftBracket => {
                self.pos = self.pos + 1;
                return self.parse_expr_items_exec();
            },
            Token::LeftCurlyBracket => {
                self.pos = self.pos + 1;
                return self.parse_coll_exec();
            },
            Token::RightBracket => {
                self.pos = self.pos + 1;
                return Err(ParseError::UnexpectedToken);
            },
            Token::RightCurlyBracket => {
                self.pos = self.pos + 1;
                return Err(ParseError::UnexpectedToken);
            },
            Token::Colon => {
                self.pos = self.pos + 1;
                return Err(ParseError::UnexpectedToken);
            },
        };
        self.pos = self.pos + 1;
        Ok(node)
    }

    /// Parses call-form operands up to the closing `)`.
    #[verifier::loop_isolation(false)]
    fn parse_expr_items_exec(&mut self) -> (r: Result<Node, ParseError>)
        requires
            old(self).pos <= old(self).tokens@.len(),
        ensures
            final(self).tokens@ == old(self).tokens@,
            final(self).pos <= final(self).tokens@.len(),
            match (
                r,
                parse_expr_items(
                    tokens_deep(old(self).tokens@),
                    old(self).pos as int,
                    Seq::empty(),
                ),
            ) {
                (Ok(n), (Ok(nv), j)) => node_view(n) == nv && final(self).pos as int == j && old(
                    self,
                ).pos < final(self).pos,
                (Err(e1), (Err(e2), _)) => e1 == e2,
                _ => false,
            },
        decreases old(self).tokens@.len() - old(self).pos, 1int,
    {
        let ghost ts = tokens_deep(self.tokens@);
        let ghost i0 = self.pos as int;
        let mut items: Vec<Node> = Vec::new();
        proof {
            lemma_nodes_view_props(items@);
            assert(nodes_view(items@) =~= Seq::<NodeV>::empty());
        }
        loop
            invariant
                ts == tokens_deep(old(self).tokens@),
                i0 == old(self).pos as int,
                self.tokens@ == old(self).tokens@,
                i0 <= self.pos as int <= self.tokens@.len(),
                parse_expr_items(ts, i0, Seq::empty()) == parse_expr_items(
                    ts,
                    self.pos as int,
                    nodes_view(items@),
                ),
            decreases self.tokens@.len() - self.pos,
        {
            let ghost p = self.pos as int;
            if self.pos >= self.tokens.len() {
                return Err(ParseError::UnexpectedEnd);
            }
            assert(ts[p] == self.tokens@[p]@);
            let done = match &self.tokens[self.pos] {
                Token::RightBracket => true,
                _ => false,
            };
            if done {
                self.pos = self.pos + 1;
                return Ok(Node::Expr(items));
            }
            match self.parse_form_exec() {
                Err(e) => {
                    return Err(e);
                },
                Ok(n) => {
                    proof {
                        let (rv, j) = parse_form(ts, p);
                        if let Ok(nv) = rv {
                            assert(clamp_pos(ts.len() as int, j, p + 1) == self.pos as int);
                            lemma_nodes_view_props(items@);
                            lemma_nodes_view_props(items@.push(n));
                            assert(nodes_view(items@.push(n)) =~= nodes_view(items@).push(
                                node_view(n),
                            ));
                        }
                    }
                    items.push(n);
                },
            }
        }
    }

    /// Parses a collection literal, the opening `{` already consumed.
    fn parse_coll_exec(&mut self) -> (r: Result<Node, ParseError>)
        requires
            old(self).pos <= old(self).tokens@.len(),
        ensures
            final(self).tokens@ == old(self).tokens@,
            final(self).pos <= final(self).tokens@.len(),
            match (r, parse_coll(tokens_deep(old(self).tokens@), old(self).pos as int)) {
                (Ok(n), (Ok(nv), j)) => node_view(n) == nv && final(self).pos as int == j && old(
                    self,
                ).pos < final(self).pos,
                (Err(e1), (Err(e2), _)) => e1 == e2,
                _ => false,
            },
        decreases old(self).tokens@.len() - old(self).pos, 1int,
    {
        let ghost ts = tokens_deep(self.tokens@);
        let ghost i = self.pos as int;
        if self.pos >= self.tokens.len() {
            return Err(ParseError::UnexpectedEnd);
        }
        assert(ts[i] == self.tokens@[i]@);
        let shape: u8 = match &self.tokens[self.pos] {
            Token::Colon => 1,
            Token::RightCurlyBracket => 2,
            _ => 0,
        };
        if shape == 1 {
            self.pos = self.pos + 1;
            if self.pos < self.tokens.len() {
                assert(ts[i + 1] == self.tokens@[i + 1]@);
                let closed = match &self.tokens[self.pos] {
                    Token::RightCurlyBracket => true,
                    _ => false,
                };
                if closed {
                    self.pos = self.pos + 1;
                    return Ok(Node::Mapping(Vec::new()));
                }
            }
            return Err(ParseError::IllegalCollection);
        }
        if shape == 2 {
            self.pos = self.pos + 1;
            return Ok(Node::List(Vec::new()));
        }
        let first = match self.parse_form_exec() {
            Ok(n) => n,
            Err(e) => {
                return Err(e);
            },
        };
        let ghost j1 = self.pos as int;
        proof {
            let (rv, j) = parse_form(ts, i);
            assert(clamp_pos(ts.len() as int, j, i + 1) == j1);
        }
        let mut colon_next = false;
        if self.pos < self.tokens.len() {
            assert(ts[j1] == self.tokens@[j1]@);
            colon_next = match &self.tokens[self.pos] {
                Token::Colon => true,
                _ => false,
            };
        }
        if colon_next {
            let k: Vec<u8> = match first {
                Node::Symbol(s) => s,
                _ => {
                    return Err(ParseError::IllegalCollection);
                },
            };
            self.pos = self.pos + 1;
            let v = match self.parse_form_exec() {
                Ok(n) => n,
                Err(e) => {
                    return Err(e);
                },
            };
            let ghost j3 = self.pos as int;
            proof {
                let (rv2, j2) = parse_form(ts, j1 + 1);
                assert(clamp_pos(ts.len() as int, j2, j1 + 2) == j3);
            }
            let mut entries: Vec<(Vec<u8>, Node)> = Vec::new();
            proof {
                lemma_node_entries_view_props(entries@);
                assert(node_entries_view(entries@) =~= Seq::<(Seq<u8>, NodeV)>::empty());
            }
            node_map_set(&mut entries, k, v);
            self.parse_map_rest_exec(entries)
        } else {
            let mut items: Vec<Node> = Vec::new();
            items.push(first);
            proof {
                lemma_nodes_view_props(items@);
                assert(nodes_view(items@) =~= seq![node_view(items@[0])]);
            }
            self.parse_list_rest_exec(items)
        }
    }

    /// Parses the remaining pairs of a map literal up to the closing `}`.
    #[verifier::loop_isolation(false)]
    fn parse_map_rest_exec(&mut self, entries: Vec<(Vec<u8>, Node)>) -> (r: Result<
        Node,
        ParseError,
    >)
        requires
            old(self).pos <= old(self).tokens@.len(),
        ensures
            final(self).tokens@ == old(self).tokens@,
            final(self).pos <= final(self).tokens@.len(),
            match (
                r,
                parse_map_rest(
                    tokens_deep(old(self).tokens@),
                    old(self).pos as int,
                    node_entries_view(entries@),
                ),
            ) {
                (Ok(n), (Ok(nv), j)) => node_view(n) == nv && final(self).pos as int == j && old(
                    self,
                ).pos < final(self).pos,
                (Err(e1), (Err(e2), _)) => e1 == e2,
                _ => false,
            },
        decreases old(self).tokens@.len() - old(self).pos, 1int,
    {
        let ghost ts = tokens_deep(self.tokens@);
        let ghost i0 = self.pos as int;
        let ghost en0 = node_entries_view(entries@);
        let mut entries = entries;
        loop
            invariant
                ts == tokens_deep(old(self).tokens@),
                i0 == old(self).pos as int,
                self.tokens@ == old(self).tokens@,
                i0 <= self.pos as int <= self.tokens@.len(),
                parse_map_rest(ts, i0, en0) == parse_map_rest(
                    ts,
                    self.pos as int,
                    node_entries_view(entries@),
                ),
            decreases self.tokens@.len() - self.pos,
        {
            let ghost p = self.pos as int;
            if self.pos >= self.tokens.len() {
                return Err(ParseError::UnexpectedEnd);
            }
            assert(ts[p] == self.tokens@[p]@);
            let closed = match &self.tokens[self.pos] {
                Token::RightCurlyBracket => true,
                _ => false,
            };
            if closed {
                self.pos = self.pos + 1;
                return Ok(Node::Mapping(entries));
            }
            let k: Vec<u8> = match &self.tokens[self.pos] {
                Token::Symbol(s) => copy_bytes(s),
                _ => {
                    return Err(ParseError::IllegalMap);
                },
            };
            if self.pos + 1 >= self.tokens.len() {
                return Err(ParseError::IllegalMap);
            }
            assert(ts[p + 1] == self.tokens@[p + 1]@);
            let has_colon = match &self.tokens[self.pos + 1] {
                Token::Colon => true,
                _ => false,
            };
            if !has_colon {
                return Err(ParseError::IllegalMap);
            }
            self.pos = self.pos + 2;
            match self.parse_form_exec() {
                Err(e) => {
                    return Err(e);
                },
                Ok(v) => {
                    proof {
                        let (rv, j) = parse_form(ts, p + 2);
                        if let Ok(nv) = rv {
                            assert(clamp_pos(ts.len() as int, j, p + 3) == self.pos as int);
                        }
                    }
                    node_map_set(&mut entries, k, v);
                },
            }
        }
    }

    /// Parses the remaining bare forms of a list literal up to the closing
    /// `}`.
    #[verifier::loop_isolation(false)]
    fn parse_list_rest_exec(&mut self, items: Vec<Node>) -> (r: Result<Node, ParseError>)
        requires
            old(self).pos <= old(self).tokens@.len(),
        ensures
            final(self).tokens@ == old(self).tokens@,
            final(self).pos <= final(self).tokens@.len(),
            match (
                r,
                parse_list_rest(
                    tokens_deep(old(self).tokens@),
                    old(self).pos as int,
                    nodes_view(items@),
                ),
            ) {
                (Ok(n), (Ok(nv), j)) => node_view(n) == nv && final(self).pos as int == j && old(
                    self,
                ).pos < final(self).pos,
                (Err(e1), (Err(e2), _)) => e1 == e2,
                _ => false,
            },
        decreases old(self).tokens@.len() - old(self).pos, 1int,
    {
        let ghost ts = tokens_deep(self.tokens@);
        let ghost i0 = self.pos as int;
        let ghost it0 = nodes_view(items@);
        let mut items = items;
        loop
            invariant
                ts == tokens_deep(old(self).tokens@),
                i0 == old(self).pos as int,
                self.tokens@ == old(self).tokens@,
                i0 <= self.pos as int <= self.tokens@.len(),
                parse_list_rest(ts, i0, it0) == parse_list_rest(
                    ts,
                    self.pos as int,
                    nodes_view(items@),
                ),
            decreases self.tokens@.len() - self.pos,
        {
            let ghost p = self.pos as int;
            if self.pos >= self.tokens.len() {
                return Err(ParseError::UnexpectedEnd);
            }
            assert(ts[p] == self.tokens@[p]@);
            let closed = match &self.tokens[self.pos] {
                Token::RightCurlyBracket => true,
                _ => false,
            };
            if closed {
                self.pos = self.pos + 1;
                return Ok(Node::List(items));
            }
            match self.parse_form_exec() {
                Err(e) => {
                    return Err(e);
                },
                Ok(n) => {
                    proof {
                        let (rv, j) = parse_form(ts, p);
                        if let Ok(nv) = rv {
                            assert(clamp_pos(ts.len() as int, j, p + 1) == self.pos as int);
                            lemma_nodes_view_props(items@);
                            lemma_nodes_view_props(items@.push(n));
                            assert(nodes_view(items@.push(n)) =~= nodes_view(items@).push(
                                node_view(n),
                            ));
                        }
                    }
                    items.push(n);
                },
            }
        }
    }
}

/// Copies one form.
#[verifier::loop_isolation(false)]
pub fn node_clone(n: &Node) -> (r: Node)
    ensures
        r@ == n@,
    decreases n,
{
    match n {
        Node::Str(s) => Node::Str(copy_bytes(s)),
        Node::Int(i) => Node::Int(*i),
        Node::Real(m, sc) => Node::Real(*m, *sc),
        Node::Symbol(s) => Node::Symbol(copy_bytes(s)),
        Node::Bool(b) => Node::Bool(*b),
        Node::Nil => Node::Nil,
        Node::List(ch) => Node::List(nodes_clone(ch)),
        Node::Mapping(en) => {
            let mut out: Vec<(Vec<u8>, Node)> = Vec::new();
            let mut i: usize = 0;
            while i < en.len()
                invariant
                    0 <= i <= en@.len(),
                    out@.len() == i,
                    forall|j: int|
                        0 <= j < i ==> out@[j].0@ == en@[j].0@ && node_view(out@[j].1)
                            == node_view(en@[j].1),
                decreases en@.len() - i,
            {
                let key = copy_bytes(&en[i].0);
                let val = node_clone(&en[i].1);
                out.push((key, val));
                i = i + 1;
            }
            proof {
                lemma_node_entries_view_props(out@);
                lemma_node_entries_view_props(en@);
                assert(node_entries_view(out@) =~= node_entries_view(en@));
            }
            Node::Mapping(out)
        },
        Node::Expr(ch) => Node::Expr(nodes_clone(ch)),
    }
}

/// Copies a sequence of forms.
#[verifier::loop_isolation(false)]
pub fn nodes_clone(ns: &Vec<Node>) -> (r: Vec<Node>)
    ensures
        nodes_view(r@) == nodes_view(ns@),
    decreases ns,
{
    let mut out: Vec<Node> = Vec::new();
    let mut i: usize = 0;
    while i < ns.len()
        invariant
            0 <= i <= ns@.len(),
            out@.len() == i,
            forall|j: int| 0 <= j < i ==> node_view(out@[j]) == node_view(ns@[j]),
        decreases ns@.len() - i,
    {
        let c = node_clone(&ns[i]);
        out.push(c);
        i = i + 1;
    }
    proof {
        lemma_nodes_view_props(out@);
        lemma_nodes_view_props(ns@);
        assert(nodes_view(out@) =~= nodes_view(ns@));
    }
    out
}

/// Decides equality of the images of two forms.
#[verifier::loop_isolation(false)]
pub fn node_equal(a: &Node, b: &Node) -> (r: bool)
    ensures
        r == (a@ == b@),
    decreases a,
{
    match (a, b) {
        (Node::Str(x), Node::Str(y)) => bytes_eq(x, y),
        (Node::Int(x), Node::Int(y)) => *x == *y,
        (Node::Real(m1, s1), Node::Real(m2, s2)) => *m1 == *m2 && *s1 == *s2,
        (Node::Symbol(x), Node::Symbol(y)) => bytes_eq(x, y),
        (Node::Bool(x), Node::Bool(y)) => *x == *y,
        (Node::Nil, Node::Nil) => true,
        (Node::List(x), Node::List(y)) => nodes_equal(x, y),
        (Node::Expr(x), Node::Expr(y)) => nodes_equal(x, y),
        (Node::Mapping(x), Node::Mapping(y)) => {
            proof {
                lemma_node_entries_view_props(x@);
                lemma_node_entries_view_props(y@);
            }
            if x.len() != y.len() {
                proof {
                    assert(node_entries_view(x@).len() != node_entries_view(y@).len());
                }
                return false;
            }
            let mut i: usize = 0;
            while i < x.len()
                invariant
                    0 <= i <= x@.len(),
                    x@.len() == y@.len(),
                    forall|j: int|
                        0 <= j < i ==> node_entries_view(x@)[j] == node_entries_view(y@)[j],
                decreases x@.len() - i,
            {
                if !bytes_eq(&x[i].0, &y[i].0) {
                    proof {
                        assert(node_entries_view(x@)[i as int] != node_entries_view(y@)[i as int]);
                    }
                    return false;
                }
                if !node_equal(&x[i].1, &y[i].1) {
                    proof {
                        assert(node_entries_view(x@)[i as int] != node_entries_view(y@)[i as int]);
                    }
                    return false;
                }
                i = i + 1;
            }
            proof {
                assert(node_entries_view(x@) =~= node_entries_view(y@));
            }
            true
        },
        _ => {
            assert(a@ != b@);
            false
        },
    }
}

/// Decides equality of the images of two form sequences.
#[verifier::loop_isolation(false)]
pub fn nodes_equal(x: &Vec<Node>, y: &Vec<Node>) -> (r: bool)
    ensures
        r == (nodes_view(x@) == nodes_view(y@)),
    decreases x,
{
    proof {
        lemma_nodes_view_props(x@);
        lemma_nodes_view_props(y@);
    }
    if x.len() != y.len() {
        proof {
            assert(nodes_view(x@).len() != nodes_view(y@).len());
        }
        return false;
    }
    let mut i: usize = 0;
    while i < x.len()
        invariant
            0 <= i <= x@.len(),
            x@.len() == y@.len(),
            forall|j: int| 0 <= j < i ==> nodes_view(x@)[j] == nodes_view(y@)[j],
        decreases x@.len() - i,
    {
        if !node_equal(&x[i], &y[i]) {
            proof {
                assert(nodes_view(x@)[i as int] != nodes_view(y@)[i as int]);
            }
            return false;
        }
        i = i + 1;
    }
    proof {
        assert(nodes_view(x@) =~= nodes_view(y@));
    }
    true
}

} // verus!
