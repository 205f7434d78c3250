//! Annotated example documents for configuration types.
//!
//! A configuration type is described by its shape: named members with their
//! documentation, the types they refer to and their default policy. From a
//! shape the library generates an emitter, and an emitter writes a commented,
//! sectioned key/value document that mirrors the type.

pub mod config;
pub mod doc;
pub mod emitter;
pub mod error;
pub mod laws;
pub mod leaf;
pub mod line;
pub mod outline;
pub mod registry;
pub mod shape;
pub mod sink;
pub mod text;
pub mod value;
pub mod walker;

pub use crate::config::DocConfig;
pub use crate::sink::WritePrefixed;
pub use crate::walker::derive_docconfig;
