//! A directory-synchronization library: content digests, line-oriented
//! manifests, manifest diffing, a bounded fetch scheduler, and a serving
//! session coordinator.

pub mod builder;
pub mod config;
pub mod dec;
pub mod diff;
pub mod digest;
pub mod fetch;
pub mod hex;
pub mod manifest;
pub mod session;
pub mod split;
