//! A small Lisp reader: it turns source text into a sequence of cons-cell
//! syntax trees (the classic `read` step that precedes evaluation).
//!
//! The pipeline is scanner -> lexeme classifier -> list assembler. Each
//! stage is specified against a mathematical model of the lexical shapes
//! and of the grammar, and the executable code is verified to agree with
//! that model exactly. Obtaining the input text, and printing the resulting
//! trees, belong to callers outside the library.

pub mod error;
pub mod reader;
pub mod token;
