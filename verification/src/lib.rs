//! Wire encoding and construction of RTP media packets: the fixed header with
//! its header extensions, packets, sequence numbers, the packetizer and the
//! abs-send-time extension.

pub mod buf;
pub mod codecs;
pub mod error;
pub mod extension;
pub mod header;
pub mod packet;
pub mod packetizer;
pub mod roundtrip;
pub mod sequence;
pub mod time;
pub mod wire;

pub use error::Error;
