//! Lexical analysis for the Monkey language: source text in, a terminated
//! sequence of tokens out.
pub mod character;
pub mod grammar;
pub mod lexer;
pub mod repl;
pub mod token;
