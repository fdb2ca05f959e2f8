//! An optimizing interpreter for Brainfuck: a parser, successive IR passes,
//! tree and flat interpreters, and the bounds analysis and instruction plan
//! of a native-code backend.
pub mod agreement;
pub mod analysis;
pub mod ast;
pub mod bytecode;
pub mod common;
pub mod equivalence;
pub mod interpreter;
pub mod jit;
pub mod peephole;
pub mod rle;
pub mod semantics;
pub mod soundness;
pub mod state;
