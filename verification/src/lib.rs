//! A compiler from a small subset of Java to JavaScript, in three stages:
//! source text to tokens, tokens to statements, statements to output text.
//! The one statement it knows is `System.out.println("...");`, which becomes
//! `console.log("...");`. Everything else in the source is dropped without
//! an error.
//!
//! Each stage is a total function with an exact contract over a
//! mathematical model of its input: `tokens_of`, `statements_of` and
//! `script_of`. The module `laws` states what follows for whole programs.

pub mod text;
pub mod strings;
pub mod token;
pub mod ast;
pub mod lexer;
pub mod parser;
pub mod codegen;
pub mod compiler;
pub mod laws;

pub use ast::{AstView, AST};
pub use codegen::generate_code;
pub use compiler::compile_source;
pub use lexer::lexical_analysis;
pub use parser::syntax_analysis;
pub use token::{Token, TokenView};
