//! A small reactive front-end toolkit: the `html!` element syntax, read and
//! expanded into the code that builds its DOM tree, and signals that re-run
//! the effects that read them.
pub mod tokens;
pub mod ast;
pub mod grammar;
pub mod parse;
pub mod signal;
pub mod strict;
pub mod markup;
pub mod scope;
pub mod codegen;
