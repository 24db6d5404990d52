//! Literals for the values of a message bus.
//!
//! A [`signature::Signature`] describes the shape of a value.
//! [`parser::get_parser`] builds, from a signature, a parser that reads the
//! literal of a value of that shape from a line of text and gives a
//! [`value::Value`] or a list of located errors.  The grammar of the
//! literals is defined in [`grammar`], as mathematical functions on
//! sequences of characters; the parser is proved to compute them, and
//! [`laws`] holds what is proved of the grammar itself.
//!
//! [`popup`], [`events`] and [`tree`] hold the decisions of a program that
//! browses the services of a bus and calls their methods.

pub mod bus;
pub mod chars;
pub mod conform;
pub mod error;
pub mod events;
pub mod grammar;
pub mod laws;
pub mod lexer;
pub mod parser;
pub mod popup;
pub mod render;
pub mod signature;
pub mod tree;
pub mod value;
