//! Payload formats.

pub mod opus;
