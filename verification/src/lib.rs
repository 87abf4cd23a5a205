//! A small dynamically typed scripting language: tokenizer, Pratt parser and
//! tree-walking evaluator, with lexical scoping, closures and a catalog of
//! built-in functions.
//!
//! Source text is turned into a sequence of tokens, the tokens into an
//! abstract syntax tree, and the tree is evaluated against an environment
//! chain to a runtime value.  Each stage is specified by a mathematical model
//! of its state and proved to follow that model.

pub mod token;
pub mod strutil;
pub mod lexer;
pub mod ast;
pub mod parser;
pub mod object;
pub mod env;
pub mod builtins;
pub mod evaluator;
