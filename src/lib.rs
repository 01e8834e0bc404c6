//! Clipboard screenshot capture: raw bitmap decoding, a content-addressed
//! image store with deduplication, and the poller's detection policy.

pub mod bitmap;
pub mod codec;
pub mod digest;
pub mod files;
pub mod paths;
pub mod poller;
pub mod store;
pub mod types;
