//! A compiler for a small imperative language with integer, real and boolean
//! variables. The source text is split into tokens, parsed into a program
//! tree, type-checked while x86-64 machine code is emitted, and packaged as
//! a relocatable ELF64 object image.
//!
//! The stages, in the order they run: [`lexer`] reads tokens from the
//! characters of the source, [`parser`] drives the stages and numbers
//! identifiers and literals, [`literal`] gives literals their values,
//! [`syntax`] reads the program tree, [`semantic`] checks it and emits the
//! code, and [`elf`] packages the code. [`grammar`] and [`typing`] state
//! what the syntax and the semantic stage accept.

pub mod tokens;
pub mod types;
pub mod program;
pub mod text;
pub mod bytes;
pub mod lexer;
pub mod literal;
pub mod parser;
pub mod syntax;
pub mod grammar;
pub mod semantic;
pub mod typing;
pub mod elf;
