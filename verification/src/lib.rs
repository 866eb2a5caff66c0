//! A tree-walking interpreter for a small imperative scripting language.
//!
//! Source text is scanned into tokens ([`token`], [`lexer`]), parsed into an
//! abstract syntax tree ([`ast`], [`parser`]) by recursive descent with
//! explicit precedence tiers, and executed by an evaluator ([`evaluator`])
//! that keeps a stack of flat call frames and a registry of declared
//! functions.  Every stage is specified by a mathematical model: the lexer
//! and each parsing routine are proved equal to spec-level twins, and the
//! evaluator is proved equal to a big-step operational semantics with a
//! call-depth bound.
pub mod ast;
pub mod evaluator;
pub mod laws;
pub mod lexer;
pub mod numtext;
pub mod parser;
pub mod token;
pub mod value;
