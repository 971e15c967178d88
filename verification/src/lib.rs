//! Densleaf compiler frontend: tokens, lexer, parser, AST, diagnostics and
//! semantic analysis, each stated and proved with Verus.
#![allow(unused_imports)]

pub mod token;
pub mod text;
pub mod diagnostic;
pub mod lexer;
pub mod ast;
pub mod parser;
pub mod semantic;
pub mod pipeline;
pub mod error_spans;
