//! A tree-walking interpreter for a small scripting language of the Lox
//! family. Its scanner, parser, resolver and evaluator are verified against
//! the definition of the language that the crate itself states.
//!
//! The pipeline is `scanner` → `parser` → `scope_resolver` → `interpreter`;
//! `lox` runs it from a source text. What each stage computes is defined in
//! `lexing`, `grammar`, `scoping` and `semantics`. The modules `binding`,
//! `agreement`, `balance`, `rendering` and `roundtrip` hold what is proved of
//! the stages together.

pub mod text;
pub mod number;
pub mod token;
pub mod errors;
pub mod ast;
pub mod value;
pub mod function;

pub mod lexing;
pub mod scanner;
pub mod grammar;
pub mod parser;
pub mod scoping;
pub mod locals;
pub mod scope_resolver;
pub mod environment;
pub mod semantics;
pub mod interpreter;
pub mod clock;
pub mod lox;

pub mod astprinter;
pub mod renderer;
pub mod logger;

pub mod binding;
pub mod agreement;
pub mod balance;
pub mod rendering;
pub mod roundtrip;

pub use lox::{Lox, LoxOption};
