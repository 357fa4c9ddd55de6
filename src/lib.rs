//! A small accumulator machine: its instruction set, the execution engine,
//! and the parser for its textual assembly.
#![allow(non_snake_case)]
#![allow(non_camel_case_types)]

pub mod interpreter;
pub mod laws;
pub mod parser;
pub mod cli;
