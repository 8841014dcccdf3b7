//! A 2D rigid-body engine whose motion law is written as symbolic equations.
//!
//! This crate holds the symbolic front end (lexer, parser, equation system),
//! the error kinds with their messages, the names under which body state is
//! bound into equations, and the decisions of evaluation and of the
//! per-tick orchestration that do not depend on numeric values.

pub mod error;
pub mod text;
pub mod lexer;
pub mod parser;
pub mod program;
pub mod space;
pub mod symbols;
pub mod solve;
