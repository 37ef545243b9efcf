//! An interpreter for a small declarative language that defines named RGB
//! colors: hex color literals, identifier references, the builtin functions
//! `rgb`, `plus` and `minus`, and textual inclusion of other source files.
//!
//! The pipeline is tokenizer, recursive-descent parser and tree-walking
//! evaluator over a shared environment of bindings and accumulated faults.
//! Each stage carries a contract stating exactly what it produces; file
//! reading and the home directory stay behind the [`files::FileSource`]
//! interface.

pub mod app_path;
pub mod color;
pub mod envroiment;
pub mod eval;
pub mod fault;
pub mod files;
pub mod lexer;
pub mod parser;
pub mod run;
pub mod utils;
