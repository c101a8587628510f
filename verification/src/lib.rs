//! A compiler front- and middle-end for an extended Brainfuck-family
//! language.  Source text is lexed into tokens, grouped into a flat token
//! stream, pre-optimized by folding runs of identical instructions, and
//! lowered into a structured basic-block graph, one function per routine.
//! A generic backend (outside this crate) takes the block graph the rest of
//! the way to object code.

pub mod analysis;
pub mod codegen;
pub mod interp;
