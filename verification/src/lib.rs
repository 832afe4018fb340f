//! A lexer and structural analyzer for a VHDL subset, together with a
//! testbench generator that renders a simulation harness for each parsed
//! entity.
//!
//! Source text flows one way: characters become tokens (`lexer`), tokens
//! become a structural model of entity and architecture declarations
//! (`analyzer`), and the model can be rendered back out as a testbench
//! (`generator`).

pub mod analyzer;
pub mod generator;
pub mod lexer;
pub mod strutil;
