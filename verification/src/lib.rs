//! A verified engine for multiparty session types: a textual protocol
//! language is parsed into global or local type trees, a global type is
//! projected onto one role's local view, and every tree can be printed
//! back into the language.
pub mod ast;
pub mod lex;
pub mod parse;
pub mod print;
pub mod project;
pub mod roles;
pub mod roundtrip;
