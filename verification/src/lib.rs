//! A lexer for a small schema definition language.
//!
//! The scanner walks a text buffer once and cuts it into classified tokens
//! whose spans cover the buffer without gaps. Every rule of the grammar is a
//! function on bytes with a mathematical counterpart, and the token stream
//! that `lexer::tokenize` returns is proved equal to the stream the grammar
//! defines.

pub mod classes;
pub mod laws;
pub mod lexer;
pub mod locality;
pub mod rules;
pub mod text;
