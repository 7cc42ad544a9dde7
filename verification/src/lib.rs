//! A small arithmetic-plus-dice expression language: a generic
//! operator-precedence parsing engine, a recursive expression tree with
//! frame-based traversal, an evaluator over a caller-supplied random
//! source, and a minimal-parenthesization renderer.

pub mod ast;
pub mod dice;
pub mod display;
pub mod engine;
pub mod eval;
pub mod exts;
pub mod lex;
pub mod parser;
pub mod pratt;
pub mod precedence;
pub mod shunting_yard;
