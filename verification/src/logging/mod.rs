//! Diagnostics: best effort, bounded, and apart from the data of the user.

pub mod record;
pub mod writer;
