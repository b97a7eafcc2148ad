//! The installer of an ecosystem: an executable that is handed one request
//! and gives one response.

pub mod api;
pub mod manifest;
