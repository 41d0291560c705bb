//! Chat Completions: request encoder and stream state machine.

pub mod acceptance;
pub mod content;
pub mod encoding;
pub mod laws;
pub mod model;
pub mod order;
pub mod requests;
pub mod runs;
pub mod session;
