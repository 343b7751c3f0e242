//! Lexing front end for a small pattern language: a tokenizer that classifies
//! source bytes into spanned tokens, and a cheaply cloneable cursor over the
//! resulting token buffer, exposing the slicing and splitting primitives that
//! a backtracking parser needs.

pub mod error;
pub mod input;
pub mod lex;
pub mod outcome;
pub mod token;
