//! The transcript of a conversation.

pub mod laws;
pub mod model;
pub mod reading;
pub mod reconcile;
pub mod source;
pub mod streaming;
pub mod transcript;
