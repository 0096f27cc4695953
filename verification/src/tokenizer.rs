//! Lexical analysis: source bytes to a sequence of tokens.
//!
//! The language of tokens: `;` starts a comment to end of line; the five
//! structural bytes `( ) { } :` stand alone; `"…"` is a string literal with
//! the escapes `\n \t \\ \"`; a digit starts a numeric literal (decimal
//! integer, decimal real with exactly one dot and digits on both sides, or
//! a based integer `0x…`/`0o…`/`0b…`); `true`, `false` and `nil` are
//! reserved words; any other run of printable bytes is a symbol.
//!
//! The spec function [`lex_from`] defines the token sequence of an input;
//! [`Tokenizer::collect`] computes it and is proved to match.

use vstd::prelude::*;

use crate::errors::LexError;
use crate::numeric::{
    acc_digits, accumulate_digits, base_digit, is_base_digit, is_dec_digit, norm_signed,
    normalize_real,
};

verus! {

/// One lexical token. Textual payloads are byte strings; a real literal is
/// kept as a normalized decimal pair: `Real(m, s)` stands for `m / 10^s`.
#[derive(Debug, Clone)]
pub enum Token {
    LeftBracket,
    RightBracket,
    LeftCurlyBracket,
    RightCurlyBracket,
    Colon,
    Str(Vec<u8>),
    Int(i64),
    Real(i64, u64),
    Bool(bool),
    Symbol(Vec<u8>),
    Nil,
}

/// Mathematical image of a `Token`: byte strings become sequences.
pub enum TokenV {
    LeftBracket,
    RightBracket,
    LeftCurlyBracket,
    RightCurlyBracket,
    Colon,
    Str(Seq<u8>),
    Int(i64),
    Real(i64, u64),
    Bool(bool),
    Symbol(Seq<u8>),
    Nil,
}

impl View for Token {
    type V = TokenV;

    open spec fn view(&self) -> TokenV {
        match self {
            Token::LeftBracket => TokenV::LeftBracket,
            Token::RightBracket => TokenV::RightBracket,
            Token::LeftCurlyBracket => TokenV::LeftCurlyBracket,
            Token::RightCurlyBracket => TokenV::RightCurlyBracket,
            Token::Colon => TokenV::Colon,
            Token::Str(s) => TokenV::Str(s@),
            Token::Int(i) => TokenV::Int(*i),
            Token::Real(m, s) => TokenV::Real(*m, *s),
            Token::Bool(b) => TokenV::Bool(*b),
            Token::Symbol(s) => TokenV::Symbol(s@),
            Token::Nil => TokenV::Nil,
        }
    }
}

/// The image of a whole token vector.
pub open spec fn tokens_deep(v: Seq<Token>) -> Seq<TokenV> {
    v.map_values(|t: Token| t@)
}

/// A byte that may stand inside a symbol: printable ASCII that is neither
/// a structural character nor the comment introducer.
pub open spec fn is_sym_byte(c: u8) -> bool {
    0x21 <= c && c <= 0x7e && c != 0x28 && c != 0x29 && c != 0x7b && c != 0x7d && c != 0x3b
        && c != 0x3a
}

/// An ASCII whitespace byte.
pub open spec fn is_ws(c: u8) -> bool {
    c == 0x20 || (0x09 <= c && c <= 0x0d)
}

/// Decides whether a byte may appear in a symbol name.
pub fn is_symbolchar(c: u8) -> (r: bool)
    ensures
        r == is_sym_byte(c),
{
    0x21 <= c && c <= 0x7e && c != 0x28 && c != 0x29 && c != 0x7b && c != 0x7d && c != 0x3b
        && c != 0x3a
}

/// The reserved word bound to the true literal.
pub open spec fn kw_true() -> Seq<u8> {
    seq![0x74u8, 0x72u8, 0x75u8, 0x65u8]
}

/// The reserved word bound to the false literal.
pub open spec fn kw_false() -> Seq<u8> {
    seq![0x66u8, 0x61u8, 0x6cu8, 0x73u8, 0x65u8]
}

/// The reserved word bound to the nil literal.
pub open spec fn kw_nil() -> Seq<u8> {
    seq![0x6eu8, 0x69u8, 0x6cu8]
}

/// The position of the next newline at or after `i`, or the input's end.
pub open spec fn scan_nl(s: Seq<u8>, i: int) -> int
    decreases s.len() - i,
{
    if i < 0 || i >= s.len() {
        s.len() as int
    } else if s[i] == 0x0a {
        i
    } else {
        scan_nl(s, i + 1)
    }
}

/// The end of the run of decimal digits starting at `i`.
pub open spec fn scan_dec(s: Seq<u8>, i: int) -> int
    decreases s.len() - i,
{
    if i < 0 || i >= s.len() {
        s.len() as int
    } else if is_dec_digit(s[i]) {
        scan_dec(s, i + 1)
    } else {
        i
    }
}

/// The end of the run of digits of the given base starting at `i`.
pub open spec fn scan_base_run(s: Seq<u8>, i: int, base: u8) -> int
    decreases s.len() - i,
{
    if i < 0 || i >= s.len() {
        s.len() as int
    } else if is_base_digit(s[i], base) {
        scan_base_run(s, i + 1, base)
    } else {
        i
    }
}

/// The end of the run of symbol bytes starting at `i`.
pub open spec fn scan_sym_run(s: Seq<u8>, i: int) -> int
    decreases s.len() - i,
{
    if i < 0 || i >= s.len() {
        s.len() as int
    } else if is_sym_byte(s[i]) {
        scan_sym_run(s, i + 1)
    } else {
        i
    }
}

/// The first position at or after `i` that holds neither whitespace nor a
/// comment, or the input's end.
pub open spec fn skip_blank(s: Seq<u8>, i: int) -> int
    decreases s.len() - i,
{
    if i < 0 || i >= s.len() {
        s.len() as int
    } else if is_ws(s[i]) {
        skip_blank(s, i + 1)
    } else if s[i] == 0x3b {
        let j = scan_nl(s, i + 1);
        let j1 = if j < i + 1 {
            i + 1
        } else if j + 1 > s.len() {
            s.len() as int
        } else {
            j + 1
        };
        skip_blank(s, j1)
    } else {
        i
    }
}

/// The outcome of scanning a string literal's body.
pub enum StrScan {
    /// The unescaped contents and the position after the closing quote.
    Done(Seq<u8>, int),
    Fail(LexError),
}

/// Scans a string literal's body starting just after the opening quote.
pub open spec fn scan_str(s: Seq<u8>, i: int) -> StrScan
    decreases s.len() - i,
{
    if i < 0 || i >= s.len() {
        StrScan::Fail(LexError::UnterminatedString)
    } else if s[i] == 0x22 {
        StrScan::Done(Seq::empty(), i + 1)
    } else if s[i] == 0x5c {
        if i + 1 >= s.len() {
            StrScan::Fail(LexError::UnterminatedString)
        } else {
            let e = s[i + 1];
            if e == 0x6e || e == 0x74 || e == 0x5c || e == 0x22 {
                let b: u8 = if e == 0x6e {
                    0x0a
                } else if e == 0x74 {
                    0x09
                } else {
                    e
                };
                match scan_str(s, i + 2) {
                    StrScan::Done(rest, j) => StrScan::Done(seq![b] + rest, j),
                    StrScan::Fail(er) => StrScan::Fail(er),
                }
            } else {
                StrScan::Fail(LexError::UnescapableChar)
            }
        }
    } else {
        match scan_str(s, i + 1) {
            StrScan::Done(rest, j) => StrScan::Done(seq![s[i]] + rest, j),
            StrScan::Fail(er) => StrScan::Fail(er),
        }
    }
}

/// Scans the fractional part of a real literal: `ip` is the value of the
/// integer part, `f0` the position just after the dot. The literal needs at
/// least one digit after the dot and must not run into a second dot.
pub open spec fn scan_fraction(s: Seq<u8>, ip: i64, f0: int) -> Result<(TokenV, int), LexError> {
    let fe = scan_dec(s, f0);
    if fe == f0 {
        Err(LexError::MalformedNumber)
    } else if fe < s.len() && s[fe] == 0x2e {
        Err(LexError::MalformedNumber)
    } else {
        match acc_digits(s.subrange(f0, fe), 10, ip) {
            None => Err(LexError::MalformedNumber),
            Some(m) => {
                let n = norm_signed(m as int, fe - f0);
                Ok((TokenV::Real(n.0 as i64, n.1 as u64), fe))
            },
        }
    }
}

/// Scans a based integer literal whose digits start at `d0`; at least one
/// digit must follow the base prefix.
pub open spec fn scan_based(s: Seq<u8>, d0: int, base: u8) -> Result<(TokenV, int), LexError> {
    let de = scan_base_run(s, d0, base);
    if de == d0 {
        Err(LexError::MalformedNumber)
    } else {
        match acc_digits(s.subrange(d0, de), base, 0) {
            None => Err(LexError::MalformedNumber),
            Some(v) => Ok((TokenV::Int(v), de)),
        }
    }
}

/// Scans the numeric literal that starts with the digit at `i`.
pub open spec fn scan_number(s: Seq<u8>, i: int) -> Result<(TokenV, int), LexError> {
    if i < 0 || i >= s.len() {
        Err(LexError::MalformedNumber)
    } else if s[i] == 0x30 {
        if i + 1 >= s.len() {
            Ok((TokenV::Int(0), i + 1))
        } else {
            let c = s[i + 1];
            if c == 0x2e {
                scan_fraction(s, 0, i + 2)
            } else if c == 0x62 {
                scan_based(s, i + 2, 2)
            } else if c == 0x6f {
                scan_based(s, i + 2, 8)
            } else if c == 0x78 {
                scan_based(s, i + 2, 16)
            } else {
                Ok((TokenV::Int(0), i + 1))
            }
        }
    } else {
        let ie = scan_dec(s, i);
        match acc_digits(s.subrange(i, ie), 10, 0) {
            None => Err(LexError::MalformedNumber),
            Some(ip) => {
                if ie < s.len() && s[ie] == 0x2e {
                    scan_fraction(s, ip, ie + 1)
                } else {
                    Ok((TokenV::Int(ip), ie))
                }
            },
        }
    }
}

/// The next scanning step: end of input, one token with the position after
/// it, or a lexical error.
pub enum LexStep {
    Done,
    Tok(TokenV, int),
    Fail(LexError),
}

/// Reads the next token at or after `i`, skipping whitespace and comments.
pub open spec fn next_token(s: Seq<u8>, i: int) -> LexStep {
    let j = skip_blank(s, i);
    if j >= s.len() {
        LexStep::Done
    } else {
        let c = s[j];
        if c == 0x28 {
            LexStep::Tok(TokenV::LeftBracket, j + 1)
        } else if c == 0x29 {
            LexStep::Tok(TokenV::RightBracket, j + 1)
        } else if c == 0x7b {
            LexStep::Tok(TokenV::LeftCurlyBracket, j + 1)
        } else if c == 0x7d {
            LexStep::Tok(TokenV::RightCurlyBracket, j + 1)
        } else if c == 0x3a {
            LexStep::Tok(TokenV::Colon, j + 1)
        } else if c == 0x22 {
            match scan_str(s, j + 1) {
                StrScan::Done(cs, k) => LexStep::Tok(TokenV::Str(cs), k),
                StrScan::Fail(e) => LexStep::Fail(e),
            }
        } else if is_dec_digit(c) {
            match scan_number(s, j) {
                Ok((t, k)) => LexStep::Tok(t, k),
                Err(e) => LexStep::Fail(e),
            }
        } else if is_sym_byte(c) {
            let k = scan_sym_run(s, j);
            let w = s.subrange(j, k);
            if w == kw_true() {
                LexStep::Tok(TokenV::Bool(true), k)
            } else if w == kw_false() {
                LexStep::Tok(TokenV::Bool(false), k)
            } else if w == kw_nil() {
                LexStep::Tok(TokenV::Nil, k)
            } else {
                LexStep::Tok(TokenV::Symbol(w), k)
            }
        } else {
            LexStep::Fail(LexError::IllegalChar)
        }
    }
}

/// The token sequence of the input from position `i` on: the meaning of the
/// whole tokenizer.
pub open spec fn lex_from(s: Seq<u8>, i: int) -> Result<Seq<TokenV>, LexError>
    decreases s.len() - i,
{
    match next_token(s, i) {
        LexStep::Done => Ok(Seq::empty()),
        LexStep::Fail(e) => Err(e),
        LexStep::Tok(t, j) => {
            let j1 = if j <= i {
                i + 1
            } else if j > s.len() {
                s.len() as int
            } else {
                j
            };
            match lex_from(s, j1) {
                Ok(ts) => Ok(seq![t] + ts),
                Err(e) => Err(e),
            }
        },
    }
}

/// The result of one executable scanning step.
pub enum LexOutcome {
    Done,
    Tok(Token),
    Fail(LexError),
}

/// Advances past whitespace and comments.
fn skip_blank_exec(src: &Vec<u8>, pos: usize) -> (r: usize)
    requires
        pos <= src@.len(),
    ensures
        r as int == skip_blank(src@, pos as int),
        pos <= r <= src@.len(),
{
    let mut p = pos;
    while p < src.len()
        invariant
            pos <= p <= src@.len(),
            skip_blank(src@, pos as int) == skip_blank(src@, p as int),
        decreases src@.len() - p,
    {
        let c = src[p];
        if c == 0x20 || (0x09 <= c && c <= 0x0d) {
            p = p + 1;
        } else if c == 0x3b {
            let c0 = p;
            p = p + 1;
            while p < src.len() && src[p] != 0x0a
                invariant
                    c0 + 1 <= p <= src@.len(),
                    scan_nl(src@, c0 + 1) == scan_nl(src@, p as int),
                decreases src@.len() - p,
            {
                p = p + 1;
            }
            assert(scan_nl(src@, c0 + 1) == p as int);
            if p < src.len() {
                p = p + 1;
            }
            assert(skip_blank(src@, c0 as int) == skip_blank(src@, p as int));
        } else {
            assert(skip_blank(src@, p as int) == p as int);
            return p;
        }
    }
    p
}

/// Scans a string literal's body, the opening quote already consumed.
/// Returns the contents and the position after the closing quote.
fn scan_str_exec(src: &Vec<u8>, pos: usize) -> (r: (Result<Vec<u8>, LexError>, usize))
    requires
        pos <= src@.len(),
    ensures
        r.1 <= src@.len(),
        match (r.0, scan_str(src@, pos as int)) {
            (Ok(v), StrScan::Done(cs, j)) => v@ == cs && r.1 as int == j && pos < r.1,
            (Err(e1), StrScan::Fail(e2)) => e1 == e2,
            _ => false,
        },
{
    let mut p = pos;
    let mut buf: Vec<u8> = Vec::new();
    while p < src.len()
        invariant
            pos <= p <= src@.len(),
            scan_str(src@, pos as int) == (match scan_str(src@, p as int) {
                StrScan::Done(rest, j) => StrScan::Done(buf@ + rest, j),
                StrScan::Fail(e) => StrScan::Fail(e),
            }),
        decreases src@.len() - p,
    {
        let c = src[p];
        if c == 0x22 {
            assert(buf@ + Seq::<u8>::empty() =~= buf@);
            return (Ok(buf), p + 1);
        } else if c == 0x5c {
            if p + 1 >= src.len() {
                return (Err(LexError::UnterminatedString), p);
            }
            let e = src[p + 1];
            if e == 0x6e || e == 0x74 || e == 0x5c || e == 0x22 {
                let b: u8 = if e == 0x6e {
                    0x0a
                } else if e == 0x74 {
                    0x09
                } else {
                    e
                };
                proof {
                    assert(buf@.push(b) =~= buf@ + seq![b]);
                    let rec = scan_str(src@, p + 2);
                    if let StrScan::Done(rest, _) = rec {
                        assert(buf@ + (seq![b] + rest) =~= (buf@ + seq![b]) + rest);
                    }
                }
                buf.push(b);
                p = p + 2;
            } else {
                return (Err(LexError::UnescapableChar), p);
            }
        } else {
            proof {
                assert(buf@.push(c) =~= buf@ + seq![c]);
                let rec = scan_str(src@, p + 1);
                if let StrScan::Done(rest, _) = rec {
                    assert(buf@ + (seq![src@[p as int]] + rest) =~= (buf@ + seq![
                        src@[p as int],
                    ]) + rest);
                }
            }
            buf.push(c);
            p = p + 1;
        }
    }
    (Err(LexError::UnterminatedString), p)
}

/// Collects the run of decimal digits starting at `pos`.
fn scan_dec_exec(src: &Vec<u8>, pos: usize) -> (r: (Vec<u8>, usize))
    requires
        pos <= src@.len(),
    ensures
        r.1 as int == scan_dec(src@, pos as int),
        pos <= r.1 <= src@.len(),
        r.0@ == src@.subrange(pos as int, r.1 as int),
        r.1 < src@.len() ==> !is_dec_digit(src@[r.1 as int]),
{
    let mut p = pos;
    let mut buf: Vec<u8> = Vec::new();
    assert(buf@ =~= src@.subrange(pos as int, pos as int));
    while p < src.len() && 0x30 <= src[p] && src[p] <= 0x39
        invariant
            pos <= p <= src@.len(),
            scan_dec(src@, pos as int) == scan_dec(src@, p as int),
            buf@ == src@.subrange(pos as int, p as int),
        decreases src@.len() - p,
    {
        assert(src@.subrange(pos as int, p as int).push(src@[p as int]) =~= src@.subrange(
            pos as int,
            p + 1,
        ));
        buf.push(src[p]);
        p = p + 1;
    }
    (buf, p)
}

/// Collects the run of digits of the given base starting at `pos`.
fn scan_base_exec(src: &Vec<u8>, pos: usize, base: u8) -> (r: (Vec<u8>, usize))
    requires
        pos <= src@.len(),
        base == 2 || base == 8 || base == 16,
    ensures
        r.1 as int == scan_base_run(src@, pos as int, base),
        pos <= r.1 <= src@.len(),
        r.0@ == src@.subrange(pos as int, r.1 as int),
{
    let mut p = pos;
    let mut buf: Vec<u8> = Vec::new();
    assert(buf@ =~= src@.subrange(pos as int, pos as int));
    while p < src.len() && base_digit(src[p], base)
        invariant
            pos <= p <= src@.len(),
            base == 2 || base == 8 || base == 16,
            scan_base_run(src@, pos as int, base) == scan_base_run(src@, p as int, base),
            buf@ == src@.subrange(pos as int, p as int),
        decreases src@.len() - p,
    {
        assert(src@.subrange(pos as int, p as int).push(src@[p as int]) =~= src@.subrange(
            pos as int,
            p + 1,
        ));
        buf.push(src[p]);
        p = p + 1;
    }
    (buf, p)
}

/// Scans the fractional part of a real literal: `ip` is the integer part's
/// value, `pos` the position just after the dot.
fn scan_fraction_exec(src: &Vec<u8>, ip: i64, pos: usize) -> (r: (
    Result<Token, LexError>,
    usize,
))
    requires
        pos <= src@.len(),
        0 <= ip,
    ensures
        r.1 <= src@.len(),
        match (r.0, scan_fraction(src@, ip, pos as int)) {
            (Ok(t), Ok((tv, k))) => t@ == tv && r.1 as int == k && pos < r.1,
            (Err(e1), Err(e2)) => e1 == e2,
            _ => false,
        },
{
    let (buf, fe) = scan_dec_exec(src, pos);
    if fe == pos {
        return (Err(LexError::MalformedNumber), fe);
    }
    if fe < src.len() && src[fe] == 0x2e {
        return (Err(LexError::MalformedNumber), fe);
    }
    match accumulate_digits(&buf, 10, ip) {
        None => (Err(LexError::MalformedNumber), fe),
        Some(m) => {
            proof {
                crate::numeric::lemma_norm_signed_bounds(m as int, fe - pos);
            }
            let (rm, rs) = normalize_real(m, (fe - pos) as u64);
            (Ok(Token::Real(rm, rs)), fe)
        },
    }
}

/// Scans a based integer literal whose digits start at `pos`.
fn scan_based_exec(src: &Vec<u8>, pos: usize, base: u8) -> (r: (Result<Token, LexError>, usize))
    requires
        pos <= src@.len(),
        base == 2 || base == 8 || base == 16,
    ensures
        r.1 <= src@.len(),
        match (r.0, scan_based(src@, pos as int, base)) {
            (Ok(t), Ok((tv, k))) => t@ == tv && r.1 as int == k && pos <= r.1,
            (Err(e1), Err(e2)) => e1 == e2,
            _ => false,
        },
{
    let (buf, de) = scan_base_exec(src, pos, base);
    if de == pos {
        return (Err(LexError::MalformedNumber), de);
    }
    match accumulate_digits(&buf, base, 0) {
        None => (Err(LexError::MalformedNumber), de),
        Some(v) => (Ok(Token::Int(v)), de),
    }
}

/// Scans the numeric literal that starts with the digit at `pos`.
fn scan_number_exec(src: &Vec<u8>, pos: usize) -> (r: (Result<Token, LexError>, usize))
    requires
        pos < src@.len(),
        is_dec_digit(src@[pos as int]),
    ensures
        r.1 <= src@.len(),
        match (r.0, scan_number(src@, pos as int)) {
            (Ok(t), Ok((tv, k))) => t@ == tv && r.1 as int == k && pos < r.1,
            (Err(e1), Err(e2)) => e1 == e2,
            _ => false,
        },
{
    let n = src.len();
    let c0 = src[pos];
    if c0 == 0x30 {
        if pos + 1 >= n {
            return (Ok(Token::Int(0)), pos + 1);
        }
        let c1 = src[pos + 1];
        if c1 == 0x2e {
            scan_fraction_exec(src, 0, pos + 2)
        } else if c1 == 0x62 {
            scan_based_exec(src, pos + 2, 2)
        } else if c1 == 0x6f {
            scan_based_exec(src, pos + 2, 8)
        } else if c1 == 0x78 {
            scan_based_exec(src, pos + 2, 16)
        } else {
            (Ok(Token::Int(0)), pos + 1)
        }
    } else {
        let (buf, ie) = scan_dec_exec(src, pos);
        match accumulate_digits(&buf, 10, 0) {
            None => (Err(LexError::MalformedNumber), ie),
            Some(ip) => {
                if ie < src.len() && src[ie] == 0x2e {
                    scan_fraction_exec(src, ip, ie + 1)
                } else {
                    (Ok(Token::Int(ip)), ie)
                }
            },
        }
    }
}

/// Collects the symbol run at `pos` and resolves reserved words.
fn scan_symbol_exec(src: &Vec<u8>, pos: usize) -> (r: (Token, usize))
    requires
        pos < src@.len(),
        is_sym_byte(src@[pos as int]),
    ensures
        pos < r.1 <= src@.len(),
        r.1 as int == scan_sym_run(src@, pos as int),
        ({
            let w = src@.subrange(pos as int, r.1 as int);
            r.0@ == (if w == kw_true() {
                TokenV::Bool(true)
            } else if w == kw_false() {
                TokenV::Bool(false)
            } else if w == kw_nil() {
                TokenV::Nil
            } else {
                TokenV::Symbol(w)
            })
        }),
{
    let mut p = pos;
    let mut buf: Vec<u8> = Vec::new();
    assert(buf@ =~= src@.subrange(pos as int, pos as int));
    while p < src.len() && is_symbolchar(src[p])
        invariant
            pos <= p <= src@.len(),
            scan_sym_run(src@, pos as int) == scan_sym_run(src@, p as int),
            buf@ == src@.subrange(pos as int, p as int),
        decreases src@.len() - p,
    {
        assert(src@.subrange(pos as int, p as int).push(src@[p as int]) =~= src@.subrange(
            pos as int,
            p + 1,
        ));
        buf.push(src[p]);
        p = p + 1;
    }
    assert(p > pos) by {
        assert(scan_sym_run(src@, pos as int) == scan_sym_run(src@, pos + 1));
    }
    let is_true = buf.len() == 4 && buf[0] == 0x74 && buf[1] == 0x72 && buf[2] == 0x75 && buf[3]
        == 0x65;
    let is_false = buf.len() == 5 && buf[0] == 0x66 && buf[1] == 0x61 && buf[2] == 0x6c && buf[3]
        == 0x73 && buf[4] == 0x65;
    let is_nil = buf.len() == 3 && buf[0] == 0x6e && buf[1] == 0x69 && buf[2] == 0x6c;
    if is_true {
        assert(buf@ =~= kw_true());
        (Token::Bool(true), p)
    } else if is_false {
        assert(buf@ =~= kw_false());
        (Token::Bool(false), p)
    } else if is_nil {
        assert(buf@ =~= kw_nil());
        (Token::Nil, p)
    } else {
        proof {
            if buf@ == kw_true() {
                assert(buf@.len() == 4 && buf@[0] == 0x74 && buf@[1] == 0x72 && buf@[2] == 0x75
                    && buf@[3] == 0x65);
            }
            if buf@ == kw_false() {
                assert(buf@.len() == 5 && buf@[0] == 0x66 && buf@[1] == 0x61 && buf@[2] == 0x6c
                    && buf@[3] == 0x73 && buf@[4] == 0x65);
            }
            if buf@ == kw_nil() {
                assert(buf@.len() == 3 && buf@[0] == 0x6e && buf@[1] == 0x69 && buf@[2] == 0x6c);
            }
        }
        (Token::Symbol(buf), p)
    }
}

/// Performs one scanning step at `pos`.
fn next_token_exec(src: &Vec<u8>, pos: usize) -> (r: (LexOutcome, usize))
    requires
        pos <= src@.len(),
    ensures
        r.1 <= src@.len(),
        match (r.0, next_token(src@, pos as int)) {
            (LexOutcome::Done, LexStep::Done) => true,
            (LexOutcome::Tok(t), LexStep::Tok(tv, j)) => t@ == tv && r.1 as int == j && pos < r.1,
            (LexOutcome::Fail(e1), LexStep::Fail(e2)) => e1 == e2,
            _ => false,
        },
{
    let j = skip_blank_exec(src, pos);
    if j >= src.len() {
        return (LexOutcome::Done, j);
    }
    let c = src[j];
    if c == 0x28 {
        (LexOutcome::Tok(Token::LeftBracket), j + 1)
    } else if c == 0x29 {
        (LexOutcome::Tok(Token::RightBracket), j + 1)
    } else if c == 0x7b {
        (LexOutcome::Tok(Token::LeftCurlyBracket), j + 1)
    } else if c == 0x7d {
        (LexOutcome::Tok(Token::RightCurlyBracket), j + 1)
    } else if c == 0x3a {
        (LexOutcome::Tok(Token::Colon), j + 1)
    } else if c == 0x22 {
        let (res, k) = scan_str_exec(src, j + 1);
        match res {
            Ok(v) => (LexOutcome::Tok(Token::Str(v)), k),
            Err(e) => (LexOutcome::Fail(e), k),
        }
    } else if 0x30 <= c && c <= 0x39 {
        let (res, k) = scan_number_exec(src, j);
        match res {
            Ok(t) => (LexOutcome::Tok(t), k),
            Err(e) => (LexOutcome::Fail(e), k),
        }
    } else if is_symbolchar(c) {
        let (t, k) = scan_symbol_exec(src, j);
        (LexOutcome::Tok(t), k)
    } else {
        (LexOutcome::Fail(LexError::IllegalChar), j)
    }
}

/// The tokenizer: a cursor over the source bytes.
pub struct Tokenizer {
    pub src: Vec<u8>,
    pub pos: usize,
}

impl Tokenizer {
    /// Makes a tokenizer standing at the start of the source.
    pub fn new(src: Vec<u8>) -> (r: Tokenizer)
        ensures
            r.src@ == src@,
            r.pos == 0,
    {
        Tokenizer { src, pos: 0 }
    }

    /// Reads every remaining token, or the first lexical error.
    #[verifier::rlimit(50)]
    pub fn collect(&mut self) -> (r: Result<Vec<Token>, LexError>)
        requires
            old(self).pos <= old(self).src@.len(),
        ensures
            final(self).src@ == old(self).src@,
            match (r, lex_from(old(self).src@, old(self).pos as int)) {
                (Ok(v), Ok(ts)) => tokens_deep(v@) == ts,
                (Err(e1), Err(e2)) => e1 == e2,
                _ => false,
            },
    {
        let ghost s = self.src@;
        let ghost i0 = self.pos as int;
        let mut tokens: Vec<Token> = Vec::new();
        assert(tokens_deep(tokens@) =~= Seq::<TokenV>::empty());
        proof {
            if let Ok(ts) = lex_from(s, i0) {
                assert(tokens_deep(tokens@) + ts =~= ts);
            }
        }
        loop
            invariant
                s == old(self).src@,
                i0 == old(self).pos as int,
                self.pos <= self.src@.len(),
                self.src@ == s,
                lex_from(s, i0) == (match lex_from(s, self.pos as int) {
                    Ok(ts) => Ok(tokens_deep(tokens@) + ts),
                    Err(e) => Err::<Seq<TokenV>, LexError>(e),
                }),
            decreases self.src@.len() - self.pos,
        {
            let (step, k) = next_token_exec(&self.src, self.pos);
            match step {
                LexOutcome::Done => {
                    assert(tokens_deep(tokens@) + Seq::<TokenV>::empty() =~= tokens_deep(
                        tokens@,
                    ));
                    return Ok(tokens);
                },
                LexOutcome::Fail(e) => {
                    return Err(e);
                },
                LexOutcome::Tok(t) => {
                    proof {
                        let stepv = next_token(s, self.pos as int);
                        if let LexStep::Tok(tv, j) = stepv {
                            if let Ok(ts_rest) = lex_from(s, j) {
                                assert(tokens_deep(tokens@.push(t)) =~= tokens_deep(tokens@)
                                    + seq![t@]);
                                assert(tokens_deep(tokens@) + (seq![tv] + ts_rest) =~= (
                                tokens_deep(tokens@) + seq![tv]) + ts_rest);
                            } else {
                                assert(tokens_deep(tokens@.push(t)) =~= tokens_deep(tokens@)
                                    + seq![t@]);
                            }
                        }
                    }
                    tokens.push(t);
                    self.pos = k;
                },
            }
        }
    }
}

} // verus!
