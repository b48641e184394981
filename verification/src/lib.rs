//! A verified interpreter for a strict subset of the JVM: a class-file
//! parser over a byte buffer and a stack-machine engine over the parsed
//! program. Only integer arithmetic, control flow and static dispatch are
//! supported; the surrounding driver supplies the bytes and prints the
//! output values.

pub mod interp;
pub mod laws;
pub mod parser;
pub mod types;
