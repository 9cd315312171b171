//! HTTP semantics: validators, ranges, content codings and the access log.

pub mod conditional_requests;
pub mod content_encoding;
pub mod headers;
pub mod loggable;
pub mod range_requests;
pub mod wire;
