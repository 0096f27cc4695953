//! A small dynamically-typed, Lisp-family scripting language: a tokenizer,
//! a recursive-descent parser producing S-expression forms, and a tree-walking
//! evaluator with a scope-stack environment, closures, special forms and a
//! closed set of native procedures. Every stage is specified by a definitional
//! spec-level function and the executable code is proved to match it.

pub mod assoc;
pub mod builtins;
pub mod env;
pub mod errors;
pub mod interpreter;
pub mod numeric;
pub mod parser;
pub mod value;
pub mod tokenizer;
