//! The back half of a small compiler: from the syntax tree of a function that
//! returns an integer expression to RISC-V assembly text.
//!
//! The work is done in two steps. The builder ([`ir`]) lowers the syntax tree
//! ([`ast`]) into an intermediate program held by the `koopa` crate: a flat,
//! ordered list of instructions on values. The code generator ([`codegen`])
//! walks that list, hands out registers as it goes, and writes the text.
//! [`pipeline`] puts the two together and states the outcome on the syntax
//! tree alone.
//!
//! Every function is verified against a contract. What is assumed of `koopa`
//! is stated in [`program`] and nowhere else.
//!
//! Only straight-line code is handled: literals, the unary operators, and the
//! binary operators as far as the intermediate program has them. Of those the
//! code generator implements equality and subtraction; everything else stops
//! the compilation with an error ([`error`]), and no text is returned.

pub mod ast;
pub mod codegen;
pub mod error;
pub mod ir;
pub mod pipeline;
pub mod program;
