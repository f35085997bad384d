//! A small expression-language front end: a lexer that classifies characters
//! into tokens, a grouping parser that partitions a token stream into
//! literal runs, parenthesized groups and tuples, a typed value model with
//! fallible text conversion, and a typed dispatch layer that checks a call's
//! argument kinds against a callable's declared signature before invoking it.

pub mod interpreter;
pub mod lexer;
pub mod objects;
pub mod parser;
