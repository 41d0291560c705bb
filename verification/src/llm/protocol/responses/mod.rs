//! Responses: request encoder and event state machine.

pub mod acceptance;
pub mod content;
pub mod encoding;
pub mod identifiers;
pub mod ingest;
pub mod laws;
pub mod model;
pub mod order;
pub mod requests;
pub mod state;
pub mod wire;
