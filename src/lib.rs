//! Core of an ahead-of-time compiler for a small imperative language: lexing and token
//! decoration, expression assembly, statement builders, relocatable command emission,
//! and the two-pass address resolution that turns symbolic jump targets into concrete
//! bytes.
pub mod action;
pub mod codegen;
pub mod decorator;
pub mod expression;
pub mod issue;
pub mod layout;
pub mod lexer;
pub mod lowering;
pub mod package;
pub mod parser;
pub mod patch;
pub mod relocation;
pub mod relocator;
pub mod token;
