//! A small CSS subset for styling widgets: class rules with sizing, margin and
//! padding declarations, parsed from cssparser's token stream and resolved
//! against a list of classes.

pub mod lexer;
pub mod text;
pub mod values;
pub mod syntax;
pub mod parse;
pub mod grammar;
pub mod resolve;
pub mod integration;

pub use integration::{Error, Event, Policy};
pub use parse::{parse, ParseError, Property, Rule, Stylesheet};
pub use resolve::Resolved;
pub use values::{Length, MarginValue, Margins, Paddings};
