//! The list of rows over a transcript.

pub mod drawing;
pub mod hover;
pub mod list;
pub mod rows;
pub mod scroll;
pub mod typography;
pub mod window;
