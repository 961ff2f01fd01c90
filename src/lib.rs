//! Builds a cross-file task graph out of Makefile-style build descriptions.
//!
//! The grammar turns one file's text into terms, the assembler turns terms
//! into a per-file task and variable table, the recipe scanner finds `make`
//! invocations of other directories, and the walker follows them from file to
//! file, handing out a unique identifier to every task.

pub mod ast;
pub mod command;
pub mod error;
pub mod grammar;
pub mod makefile;
pub mod parser;
mod scan;
pub mod text;
pub mod vars;
pub mod walk;
