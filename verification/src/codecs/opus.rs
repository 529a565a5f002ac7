//! The Opus payload format: one packet carries one Opus frame as it is.

use crate::buf::{as_slice, bytes_view};
use crate::error::Error;
use crate::packetizer::{chunk_views, Depacketizer, Payloader};
use bytes::Bytes;
use vstd::prelude::*;
use vstd::slice::slice_to_vec;

verus! {

/// The payloader for Opus: the whole payload is one chunk, whatever the
/// budget; an empty payload, or a budget of no bytes, gives no chunk.
#[derive(Debug, Clone, Copy, Default)]
pub struct OpusPayloader;

/// The depacketizer for Opus: the payload of a packet is the frame.
#[derive(Debug, Clone, PartialEq, Eq)]
pub struct OpusPacket {
    pub payload: Bytes,
}

impl Payloader for OpusPayloader {
    open spec fn chunks(&self, mtu: isize, data: Seq<u8>) -> Result<Seq<Seq<u8>>, Error> {
        if data.len() == 0 || mtu <= 0 {
            Ok(Seq::empty())
        } else {
            Ok(seq![data])
        }
    }

    fn payload(&self, mtu: isize, payload: &Bytes) -> (r: Result<Vec<Vec<u8>>, Error>) {
        let mut out: Vec<Vec<u8>> = Vec::new();
        if payload.len() == 0 || mtu <= 0 {
            assert(chunk_views(out@) =~= Seq::empty());
            return Ok(out);
        }
        let chunk = slice_to_vec(as_slice(payload));
        out.push(chunk);
        assert(chunk_views(out@) =~= seq![bytes_view(*payload)]);
        Ok(out)
    }
}

impl Default for OpusPacket {
    /// The depacketizer that holds no payload yet.
    fn default() -> (p: OpusPacket)
        ensures
            bytes_view(p.payload) == Seq::<u8>::empty(),
    {
        OpusPacket { payload: Bytes::new() }
    }
}

impl Depacketizer for OpusPacket {
    /// Takes in the payload of one packet as it is. A payload without bytes
    /// is refused, and what was held before stays.
    fn depacketize(&mut self, packet: &Bytes) -> (r: Result<(), Error>)
        ensures
            match r {
                Ok(_) => bytes_view(*packet).len() > 0 && bytes_view(final(self).payload)
                    == bytes_view(*packet),
                Err(e) => bytes_view(*packet).len() == 0 && e == Error::PayloadIsNotLargeEnough
                    && *final(self) == *old(self),
            },
    {
        if packet.len() == 0 {
            Err(Error::PayloadIsNotLargeEnough)
        } else {
            self.payload = packet.clone();
            Ok(())
        }
    }
}

} // verus!
