//! Message payload types for the "run a build target" request/response pair
//! of a build-tool integration protocol, together with their wire codec.
//!
//! The wire format is a JSON object with lower-camel-case keys; optional
//! fields that are absent are omitted from the record entirely.

pub mod error;
pub mod extension;
pub mod ident;
pub mod laws;
pub mod run;
pub mod run_result;
pub mod text;
pub mod wire;
