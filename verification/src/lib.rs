//! Front end of a compiler for a small declarative language of events,
//! constant bindings and functions: a scanner that turns source text into
//! tokens, and a recursive-descent parser that turns tokens into a syntax tree.

pub mod compiler;
