//! Payload formats of header extensions.

pub mod abs_send_time_extension;
