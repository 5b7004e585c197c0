//! A small compilation pipeline for a toy imperative language: a program
//! tree held in an arena is lowered into a control-flow graph of basic
//! blocks carrying a three-address-style instruction set, and that graph is
//! walked directly to produce the program's output lines.
//!
//! The lowering and the graph walk are specified by pure model functions;
//! every executable function is proved to return exactly what its model
//! says, and the behavioural laws of the pipeline are proved over those
//! models.

pub mod arith;
pub mod ast;
pub mod cfg;
pub mod laws;
pub mod numfmt;
pub mod simulate;
pub mod symbol;
pub mod token;
