//! Publication pipeline and content-addressed storage of a package registry
//! built on signed, append-only package logs.
pub mod digest;
pub mod content;
pub mod encoding;
pub mod validation;
pub mod publish;
pub mod coordinator;
pub mod api;
pub mod storage;
