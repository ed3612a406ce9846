//! Front end and evaluator of a small interpreted language: a lexer, a
//! recursive-descent parser with diagnostics, and a tree-walking evaluator
//! over exact numbers, strings and tuples.

/// Character classes and byte offsets of UTF-8 text.
pub mod chars;
/// Kinds of lexeme.
pub mod lexeme;
/// The lexer: one lexeme per call.
pub mod lexer;
/// Parse diagnostics.
pub mod diag;
/// The parser's cursor over lexemes.
pub mod parser;
/// Names, literals and keywords.
pub mod terminal;
/// Expressions.
pub mod expr;
/// What each grammar rule reads, and how it ends.
pub mod grammar;
/// Statements and programmes.
pub mod syntax;
/// Exact numbers and numeric literals.
pub mod number;
/// Runtime values and arithmetic.
pub mod obj;
/// Frames of names.
pub mod scope;
/// Evaluation diagnostics.
pub mod eval_diag;
/// Evaluation of expressions.
pub mod eval;
/// Running statements and programmes.
pub mod interp;
