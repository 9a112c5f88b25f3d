//! Tofino: the fingerpaint version of a web browser.
//!
//! The library parses URLs, prepares HTTP/1.0 requests, parses HTTP responses
//! and renders HTML bodies as plain text for the console.

pub mod cli;
pub mod headers;
pub mod html;
pub mod resources;
pub mod schemes;
pub mod text;
pub mod url;
