//! Front end of a small module-based language: a lexer-free recursive-descent
//! parser over character sequences with a strict case discipline for
//! identifiers, a numeral and path grammar, an expression and declaration
//! grammar that builds a tree of modules, and a name resolver that walks that
//! tree.

pub mod chars;
pub mod ident;
pub mod number;
pub mod path;
pub mod ast;
pub mod space;
pub mod grammar;
pub mod item;
pub mod pattern;
pub mod resolver;
pub mod laws;
