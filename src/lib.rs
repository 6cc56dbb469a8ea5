//! A scanner, a recursive-descent parser and a tree-walking evaluator for a small
//! imperative teaching language, each proved against a mathematical model: `scanner`
//! against the token spec `next_token`, `parser` against the grammar in `grammar`, and
//! `interpreter` against the evaluation `eval` of the parsed tree.
pub mod error;
pub mod grammar;
pub mod interpreter;
pub mod laws;
pub mod nodes;
pub mod parser;
pub mod scanner;
pub mod text;
pub mod tokens;
