//! A small instruction-lifting engine: decoded x86-64 instructions are
//! translated, rule by rule, into a partially symbolic expression tree.
//! Sections of a loaded executable image are held in an address-ranged
//! memory model, and a worklist drives decoding from discovered function
//! entry addresses until a terminator instruction.

pub mod ast;
pub mod errors;
pub mod inst;
pub mod memory;
pub mod parser;
pub mod render;
pub mod worklist;
