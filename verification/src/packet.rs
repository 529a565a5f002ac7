//! The RTP packet: a header and the payload behind it.

use crate::buf::{as_slice, bytes_mut_view, bytes_view, put, slice_from};
use crate::error::Error;
use crate::header::Header;
use crate::roundtrip::{canonical, lemma_header_bytes_len, lemma_header_roundtrip};
use crate::wire::{blank_header, header_bytes, header_fault, header_size, parse_header, HeaderView};
use bytes::{Bytes, BytesMut};
use vstd::prelude::*;

verus! {

/// An RTP packet.
#[derive(Debug, Clone, PartialEq, Eq)]
pub struct Packet {
    pub header: Header,
    pub payload: Bytes,
}

/// A packet as a mathematical value.
pub struct PacketView {
    pub header: HeaderView,
    pub payload: Seq<u8>,
}

impl View for Packet {
    type V = PacketView;

    open spec fn view(&self) -> PacketView {
        PacketView { header: self.header@, payload: bytes_view(self.payload) }
    }
}

/// The bytes of a packet on the wire: the header, then the payload as it is.
pub open spec fn packet_bytes(p: PacketView) -> Seq<u8> {
    header_bytes(p.header) + p.payload
}

/// The size of a packet on the wire.
pub open spec fn packet_size(p: PacketView) -> nat {
    header_size(p.header) + p.payload.len()
}

/// What marshalling a packet gives: its bytes, or the error for which its
/// header is refused.
pub open spec fn marshal_packet(p: PacketView) -> Result<Seq<u8>, Error> {
    match header_fault(p.header) {
        Some(e) => Err(e),
        None => Ok(packet_bytes(p)),
    }
}

/// What reading a packet from `raw` gives: the header at its front and all
/// that follows as payload, or the error of the header.
pub open spec fn parse_packet(raw: Seq<u8>) -> Result<PacketView, Error> {
    match parse_header(raw) {
        Ok((header, n)) => Ok(PacketView { header, payload: raw.skip(n as int) }),
        Err(e) => Err(e),
    }
}

/// What `r` holds, with the packet as a mathematical value.
pub open spec fn packet_result(r: Result<Packet, Error>) -> Result<PacketView, Error> {
    match r {
        Ok(p) => Ok(p@),
        Err(e) => Err(e),
    }
}

/// What `r` holds, with the bytes as a sequence.
pub open spec fn bytes_result(r: Result<Bytes, Error>) -> Result<Seq<u8>, Error> {
    match r {
        Ok(b) => Ok(bytes_view(b)),
        Err(e) => Err(e),
    }
}

impl Default for Packet {
    /// The packet with the default header and no payload.
    fn default() -> (p: Packet)
        ensures
            p@ == (PacketView { header: blank_header(), payload: Seq::empty() }),
    {
        Packet { header: Header::default(), payload: Bytes::new() }
    }
}

impl Packet {
    /// Whether the packet can be handed to `marshal_size` and `marshal`: its
    /// header fits the fields of the wire format, and its size is no more
    /// than the largest `isize`.
    pub fn is_encodable(&self) -> (b: bool)
        ensures
            b == (self.header.encodable() && packet_size(self@) <= isize::MAX),
    {
        if !self.header.is_encodable() {
            return false;
        }
        let limit: usize = isize::MAX as usize;
        self.payload.len() <= limit - self.header.marshal_size()
    }

    /// The number of bytes that `marshal_to` writes for this packet.
    pub fn marshal_size(&self) -> (n: usize)
        requires
            self.header.encodable(),
            packet_size(self@) <= usize::MAX,
        ensures
            n == packet_size(self@),
    {
        self.header.marshal_size() + self.payload.len()
    }

    /// Reads a packet from `raw_packet`: the header at its front, and all
    /// that follows it as the payload.
    pub fn unmarshal(raw_packet: &Bytes) -> (r: Result<Self, Error>)
        ensures
            packet_result(r) == parse_packet(bytes_view(*raw_packet)),
    {
        match Header::unmarshal_prefix(as_slice(raw_packet)) {
            Ok((header, n)) => {
                let payload = slice_from(raw_packet, n);
                Ok(Packet { header, payload })
            },
            Err(e) => Err(e),
        }
    }

    /// The packet's bytes on the wire, or the error for which its header is
    /// refused.
    pub fn marshal(&self) -> (r: Result<Bytes, Error>)
        requires
            self.header.encodable(),
            packet_size(self@) <= isize::MAX,
        ensures
            bytes_result(r) == marshal_packet(self@),
    {
        let mut buf = BytesMut::with_capacity(self.marshal_size());
        match self.marshal_to(&mut buf) {
            Ok(_) => {
                assert(bytes_mut_view(buf) =~= packet_bytes(self@));
                Ok(buf.freeze())
            },
            Err(e) => Err(e),
        }
    }

    /// Appends the packet's bytes to `buf` and returns their number. Where
    /// the header is refused, nothing is written. The buffer must have room
    /// to grow by the packet's size.
    pub fn marshal_to(&self, buf: &mut BytesMut) -> (r: Result<usize, Error>)
        requires
            self.header.encodable(),
            bytes_mut_view(*old(buf)).len() + packet_size(self@) <= isize::MAX,
        ensures
            match marshal_packet(self@) {
                Ok(bytes) => r == Ok::<usize, Error>(packet_size(self@) as usize)
                    && bytes_mut_view(*final(buf)) == bytes_mut_view(*old(buf)) + bytes,
                Err(e) => r == Err::<usize, Error>(e) && bytes_mut_view(*final(buf))
                    == bytes_mut_view(*old(buf)),
            },
    {
        let mut head: Vec<u8> = Vec::new();
        match self.header.marshal_to(&mut head) {
            Ok(n) => {
                put(buf, head.as_slice());
                put(buf, as_slice(&self.payload));
                assert(bytes_mut_view(*buf) =~= bytes_mut_view(*old(buf)) + packet_bytes(self@));
                Ok(n + self.payload.len())
            },
            Err(e) => Err(e),
        }
    }
}

/// The bytes of a packet are as many as its size says.
pub proof fn lemma_packet_bytes_len(p: PacketView)
    ensures
        packet_bytes(p).len() == packet_size(p),
        marshal_packet(p) matches Ok(bytes) ==> bytes.len() == packet_size(p),
{
}

/// Reading a packet from its own bytes gives the packet again, where its
/// header is canonical.
pub proof fn lemma_packet_roundtrip(p: PacketView)
    requires
        canonical(p.header),
    ensures
        marshal_packet(p) == Ok::<Seq<u8>, Error>(packet_bytes(p)),
        parse_packet(packet_bytes(p)) == Ok::<PacketView, Error>(p),
{
    let head = header_bytes(p.header);
    lemma_header_roundtrip(p.header, p.payload);
    lemma_header_bytes_len(p.header);
    lemma_skip_front(head, p.payload);
}

/// What stands behind the first of two sequences put together is the second.
proof fn lemma_skip_front(a: Seq<u8>, b: Seq<u8>)
    ensures
        (a + b).skip(a.len() as int) == b,
{
    assert((a + b).skip(a.len() as int) =~= b);
}

} // verus!
