//! Conversations.

pub mod transcript;
pub mod view;
