//! The lexical front end of a compiler: an interned-string table that gives
//! every distinct string a small integer identity, and a tokenizer that runs a
//! grammar's state machine over a source text and hands out tokens with exact
//! positions on three channels.

pub mod calc;
pub mod lexer;
pub mod symbol;
pub mod text;
pub mod token;
