//! Pico client pieces: panel mapping, settings record, HTTP framing, URLs.

pub mod cli;
pub mod config;
pub mod device;
pub mod headers;
pub mod panel;
pub mod protocol;
