//! Core of a desktop chat client.

pub mod chat;
pub mod deep;
pub mod error_card;
pub mod fonts;
pub mod json;
pub mod llm;
pub mod logging;
pub mod ordered;
pub mod paths;
pub mod text;
