//! A small Lisp: values, lexically scoped environments, an evaluator with
//! special forms and closures, a library of native primitives and a reader.
//!
//! Every executable function carries a contract over the mathematical model
//! of the data it touches:
//!
//! - [`lispval`]: the values, their model, their canonical text, coercions;
//! - [`error`]: the errors of evaluation;
//! - [`env`]: frames of bindings and the store that holds them;
//! - [`parser`]: the grammar, and the reader that is proved to follow it;
//! - [`semantics`] and [`primitive_specs`]: what evaluation means;
//! - [`evaluation`] and [`primitive_functions`]: the evaluator, proved to
//!   compute exactly what the semantics defines;
//! - [`laws`] and [`soundness`]: what follows for every program and every
//!   environment;
//! - [`text`]: numerals and the order of strings.

pub mod env;
pub mod error;
pub mod evaluation;
pub mod laws;
pub mod lispval;
pub mod parser;
pub mod primitive_functions;
pub mod primitive_specs;
pub mod semantics;
pub mod soundness;
pub mod text;
