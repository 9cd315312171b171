//! The settings the server runs with.

pub mod args;
