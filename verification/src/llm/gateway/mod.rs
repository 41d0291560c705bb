//! The generation gateway: routing, assembly and lifecycle.

pub mod assembler;
pub mod chat_assembly;
pub mod generation;
pub mod laws;
pub mod outcomes;
pub mod session;
