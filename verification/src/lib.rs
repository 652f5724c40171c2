//! Lexical front-end for a small scripting language: a scanner that turns
//! raw source text into a sequence of classified tokens, and a minimal
//! expression tree with a canonical Lisp-style textual rendering.

pub mod expr;
pub mod lexmodel;
pub mod scanner;
pub mod token;
