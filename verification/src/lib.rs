//! A toolchain around Post tag systems: an in-memory model of tag-system
//! programs with structural validation, a deterministic binary assembler for
//! them, a compiler that lowers a bit-addressable tape machine onto an
//! equivalent tag-system ruleset, and a reference interpreter for the tape
//! machine that serves as the semantic oracle for the compiler's output.

pub mod assembler;
pub mod compile;
pub mod interp;
pub mod mach;
pub mod parse;
pub mod tag;
pub mod text;
