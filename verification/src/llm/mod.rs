//! The generation gateway: requests, provider protocols, streams and outcomes.

pub mod config;
pub mod error;
pub mod event;
pub mod gateway;
pub mod metrics;
pub mod model;
pub mod protocol;
pub mod rendering;
pub mod sse;
pub mod transport;
