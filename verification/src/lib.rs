//! Export of finalized quantum circuit traces into two textual formats:
//! an OpenQASM 2.0 program, emitted incrementally by a gate-call backend,
//! and a LaTeX (quantikz) circuit diagram, rendered from a grid-structured
//! circuit. Every emission and layout decision is specified and verified;
//! the execution engine that issues gate calls and the tracer that
//! produces circuits are external collaborators and live outside this crate.

pub mod circuit;
pub mod errors;
pub mod grid;
pub mod qasm;
pub mod quantikz;
pub mod text;
