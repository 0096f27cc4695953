//! The error taxonomy: each stage fails with the first error it meets and
//! returns it unchanged to its caller.

use vstd::prelude::*;

verus! {

/// A failure while turning source bytes into tokens.
#[derive(Debug, Clone, Copy, PartialEq, Eq, Structural)]
pub enum LexError {
    /// A byte that can begin no token.
    IllegalChar,
    /// The input ended inside a string literal.
    UnterminatedString,
    /// A `\` escape with an unknown follower.
    UnescapableChar,
    /// A numeric literal with a malformed shape or one too large to hold.
    MalformedNumber,
}

/// A failure while turning tokens into forms.
#[derive(Debug, Clone, Copy, PartialEq, Eq, Structural)]
pub enum ParseError {
    /// A token that can begin no form.
    UnexpectedToken,
    /// The token stream ended inside a construct.
    UnexpectedEnd,
    /// A malformed `{ ... }` collection literal.
    IllegalCollection,
    /// A malformed `symbol : form` pair inside a map literal.
    IllegalMap,
}

/// A failure while evaluating a form.
#[derive(Debug, Clone, Copy, PartialEq, Eq, Structural)]
pub enum EvalError {
    /// A symbol with no binding in any live scope.
    UnknownSymbol,
    /// An `()` call form with no operator.
    EmptyExpr,
    /// A call or special form with the wrong number of operands.
    Arity,
    /// An operand of a kind the operator does not take.
    WrongType,
    /// A call whose operator value is no function.
    NotCallable,
    /// A malformed special form.
    Syntax,
    /// A numeric result too large for the numeric representation.
    Overflow,
    /// Evaluation nested deeper than the interpreter's depth limit.
    TooDeep,
}

/// Any failure of the pipeline, tagged with the stage it came from.
#[derive(Debug, Clone, Copy, PartialEq, Eq, Structural)]
pub enum Error {
    Lex(LexError),
    Parse(ParseError),
    Eval(EvalError),
}

} // verus!
