//! A small front end for a Lisp-like language: a lexer for S-expressions, a
//! parser that builds pair trees from the tokens, and a kernel of terms with a
//! universe-indexed typing judgment.

pub mod helper;
pub mod node;
pub mod number;
pub mod sexpr_parser;
pub mod sexpr_tokenizer;
