//! A lexical scanner for a small Lox-family scripting language.
//!
//! The scanner turns source text into a sequence of tokens that always ends
//! with one end-of-input token. Lexical errors do not stop the scan: each one
//! is recorded with its line, the offending text is skipped, and scanning
//! goes on, so one pass reports every error and still yields every token.
//!
//! [`grammar`] says, as mathematics over `Seq<char>`, what the tokens and the
//! errors of a source text are; [`scanner`] computes them and is proved to
//! agree with it; [`laws`] proves what holds of every scan.
pub mod classes;
pub mod error;
pub mod grammar;
pub mod laws;
pub mod scanner;
pub mod token;

