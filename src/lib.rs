//! A small tape language with eight instructions, run two ways: an
//! interpreter that keeps a stack of loop positions, and a generator that
//! turns the program into C++ source with native nested loops.

pub mod instr;
pub mod codegen;
pub mod interp;
pub mod laws;
