//! Cutting a payload into RTP packets.

use crate::buf::{as_slice, bytes_view, copy_from_slice};
use crate::error::Error;
use crate::extension::abs_send_time_extension::{
    nanos_u64, ntp_of_nanos, stamp_bytes, AbsSendTimeExtension,
};
use crate::header::{with_extension, Header};
use crate::packet::{Packet, PacketView};
use crate::roundtrip::canonical;
use crate::sequence::Sequencer;
use crate::time::{since_unix_epoch, system_now};
use crate::wire::{body_bytes, one_byte_fault, HeaderView, EXTENSION_PROFILE_ONE_BYTE};
use bytes::Bytes;
use std::time::Duration;
use vstd::prelude::*;
use vstd::slice::slice_to_vec;

verus! {

/// The chunks of a list, each as a sequence of bytes.
pub open spec fn chunk_views(chunks: Seq<Vec<u8>>) -> Seq<Seq<u8>> {
    Seq::new(chunks.len(), |i: int| chunks[i]@)
}

/// What `r` holds, with the chunks as sequences of bytes.
pub open spec fn chunks_result(r: Result<Vec<Vec<u8>>, Error>) -> Result<Seq<Seq<u8>>, Error> {
    match r {
        Ok(v) => Ok(chunk_views(v@)),
        Err(e) => Err(e),
    }
}

/// Cuts a payload into the chunks that go into one RTP packet each.
pub trait Payloader: Sized {
    /// What `payload` returns for a budget of `mtu` bytes a chunk and the
    /// bytes `data`. Where an implementation does not say what it is, it is
    /// some function of the payloader, `mtu` and `data` of which nothing
    /// more is known.
    open spec fn chunks(&self, mtu: isize, data: Seq<u8>) -> Result<Seq<Seq<u8>>, Error> {
        arbitrary::<spec_fn(Self, isize, Seq<u8>) -> Result<Seq<Seq<u8>>, Error>>()(
            *self,
            mtu,
            data,
        )
    }

    /// Cuts `payload` into chunks for a budget of `mtu` bytes each.
    fn payload(&self, mtu: isize, payload: &Bytes) -> (r: Result<Vec<Vec<u8>>, Error>)
        ensures
            chunks_result(r) == self.chunks(mtu, bytes_view(*payload)),
    ;
}

/// Takes the payload of an RTP packet apart, for one payload format.
pub trait Depacketizer {
    /// Takes in the payload of one packet. A payload without bytes is
    /// refused.
    fn depacketize(&mut self, packet: &Bytes) -> (r: Result<(), Error>)
        ensures
            bytes_view(*packet).len() == 0 ==> r is Err,
    ;
}

/// What a packetizer is set up with, and its running timestamp.
pub struct PacketizerState {
    /// The largest size of a packet; twelve bytes of it go to the header.
    pub mtu: isize,
    pub payload_type: u8,
    pub ssrc: u32,
    /// The timestamp that the packets of the next call get.
    pub timestamp: u32,
    pub clock_rate: u32,
    /// The id of the abs-send-time extension; 0 where it is not used.
    pub abs_send_time: u8,
    /// Whether the time of sending comes from a function handed in, and not
    /// from the system clock.
    pub injected_time: bool,
}

/// The header of a packet as the packetizer first makes it.
pub open spec fn plain_header(
    payload_type: u8,
    ssrc: u32,
    timestamp: u32,
    sequence_number: u16,
    marker: bool,
) -> HeaderView {
    HeaderView {
        version: 2,
        padding: false,
        extension: false,
        marker,
        payload_type,
        sequence_number,
        timestamp,
        ssrc,
        csrc: Seq::empty(),
        extension_profile: 0,
        extensions: Seq::empty(),
    }
}

/// The packets for a list of chunks: one for each chunk, in order, with the
/// sequence numbers that `sequencer` hands out one after the other, all with
/// the same timestamp, and the marker on the last one only.
pub open spec fn plain_packets<S: Sequencer>(
    chunks: Seq<Seq<u8>>,
    payload_type: u8,
    ssrc: u32,
    timestamp: u32,
    sequencer: S,
) -> Seq<PacketView> {
    Seq::new(
        chunks.len(),
        |i: int|
            PacketView {
                header: plain_header(
                    payload_type,
                    ssrc,
                    timestamp,
                    sequencer.upcoming(i as nat),
                    i == chunks.len() - 1,
                ),
                payload: chunks[i],
            },
    )
}

/// The packets of a list, each as a mathematical value.
pub open spec fn packet_views(packets: Seq<Packet>) -> Seq<PacketView> {
    Seq::new(packets.len(), |i: int| packets[i]@)
}

/// The three bytes of the abs-send-time extension for a time of sending.
pub open spec fn send_time_bytes(send_time: Duration) -> Seq<u8> {
    stamp_bytes((ntp_of_nanos(nanos_u64(send_time)) / 0x4000) as u64)
}

/// The packets with the extension `id` of the last one set to `stamp`.
pub open spec fn stamped(packets: Seq<PacketView>, id: u8, stamp: Seq<u8>) -> Seq<PacketView> {
    let last = packets.len() - 1;
    packets.update(
        last,
        PacketView { header: with_extension(packets[last].header, id, stamp), ..packets[last] },
    )
}

/// Wraps each chunk into a packet: version 2, the given payload type, SSRC
/// and timestamp, the next sequence number of `sequencer`, and the marker on
/// the last packet only.
pub fn wrap_chunks<S: Sequencer>(
    chunks: &Vec<Vec<u8>>,
    payload_type: u8,
    ssrc: u32,
    timestamp: u32,
    sequencer: &mut S,
) -> (packets: Vec<Packet>)
    ensures
        packet_views(packets@) == plain_packets(
            chunk_views(chunks@),
            payload_type,
            ssrc,
            timestamp,
            *old(sequencer),
        ),
        forall|k: nat| #[trigger]
            final(sequencer).upcoming(k) == old(sequencer).upcoming(k + chunks@.len()),
{
    let ghost start = *sequencer;
    let ghost all = plain_packets(chunk_views(chunks@), payload_type, ssrc, timestamp, start);
    let l: usize = chunks.len();
    let mut packets: Vec<Packet> = Vec::new();
    let mut i: usize = 0;
    assert(packet_views(packets@) =~= all.take(0));
    while i < l
        invariant
            i <= l,
            l == chunks@.len(),
            all == plain_packets(chunk_views(chunks@), payload_type, ssrc, timestamp, start),
            packet_views(packets@) == all.take(i as int),
            forall|k: nat| #[trigger] sequencer.upcoming(k) == start.upcoming(k + i as nat),
        decreases l - i,
    {
        let ghost before = *sequencer;
        let ghost done = packet_views(packets@);
        let sequence_number = sequencer.next_sequence_number();
        assert(sequence_number == start.upcoming(i as nat)) by {
            assert(before.upcoming(0) == start.upcoming(0 + i as nat));
        }
        assert forall|k: nat| #[trigger]
            sequencer.upcoming(k) == start.upcoming(k + (i + 1) as nat) by {
            assert(before.upcoming(k + 1) == start.upcoming((k + 1) + i as nat));
        }
        let header = Header {
            version: 2,
            padding: false,
            extension: false,
            marker: i == l - 1,
            payload_type,
            sequence_number,
            timestamp,
            ssrc,
            csrc: Vec::new(),
            extension_profile: 0,
            extensions: Vec::new(),
        };
        assert(header@.extensions =~= Seq::empty());
        let packet = Packet { header, payload: copy_from_slice(chunks[i].as_slice()) };
        assert(packet@ == all[i as int]);
        packets.push(packet);
        assert(packet_views(packets@) =~= done.push(packet@));
        assert(all.take(i + 1) =~= all.take(i as int).push(all[i as int]));
        i = i + 1;
    }
    assert(all.take(l as int) =~= all);
    packets
}

/// Sets the extension `id` of the header of the last packet to the three
/// bytes of the abs-send-time extension for `send_time`. The last packet
/// must be one whose header has no extension yet; then nothing is refused.
pub fn stamp_send_time(packets: &mut Vec<Packet>, id: u8, send_time: Duration) -> (r: Result<
    (),
    Error,
>)
    requires
        old(packets)@.len() > 0,
        !old(packets)@.last().header.extension,
    ensures
        r is Ok,
        packet_views(final(packets)@) == stamped(
            packet_views(old(packets)@),
            id,
            send_time_bytes(send_time),
        ),
{
    let ghost before = packet_views(packets@);
    let stamp = AbsSendTimeExtension::new(send_time);
    let bytes = stamp.marshal()?;
    let raw: Vec<u8> = slice_to_vec(as_slice(&bytes));
    let mut last = packets.pop().unwrap();
    let ghost rest = packet_views(packets@);
    assert(rest =~= before.drop_last());
    last.header.set_extension(id, raw)?;
    packets.push(last);
    assert(packet_views(packets@) =~= rest.push(last@));
    assert(packet_views(packets@) =~= stamped(before, id, send_time_bytes(send_time)));
    Ok(())
}

/// The state after a call of `packetize` that got its chunks: the running
/// timestamp has moved on by `samples`.
pub open spec fn advanced(state: PacketizerState, samples: u32) -> PacketizerState {
    PacketizerState { timestamp: (state.timestamp + samples) as u32, ..state }
}

/// Whether a call that got `count` chunks stamps the last packet with the
/// time of sending.
pub open spec fn stamps(state: PacketizerState, count: nat) -> bool {
    count != 0 && state.abs_send_time != 0
}

/// Turns payloads into RTP packets.
pub trait Packetizer: Sized {
    /// What the packetizer is set up with, and its running timestamp. Where
    /// an implementation does not say what it is, it is some function of
    /// the packetizer of which nothing more is known.
    open spec fn state(&self) -> PacketizerState {
        arbitrary::<spec_fn(Self) -> PacketizerState>()(*self)
    }

    /// Cuts `payload` into chunks with `payloader`, for a budget of the MTU
    /// less the twelve bytes of the fixed header, and wraps each chunk into
    /// a packet with the next sequence number of `sequencer` and the running
    /// timestamp; the last packet gets the marker. Then the running
    /// timestamp moves on by `samples`. Where the abs-send-time extension is
    /// enabled and there is a packet, the last packet's header gets that
    /// extension with the current time.
    ///
    /// Where the payloader fails, its error is returned and nothing has
    /// changed. The only other error is that of the system clock, which can
    /// arise only where the time is taken from it.
    fn packetize<P: Payloader, S: Sequencer>(
        &mut self,
        payload: &Bytes,
        payloader: &mut P,
        sequencer: &mut S,
        samples: u32,
    ) -> (r: Result<Vec<Packet>, Error>)
        requires
            old(self).state().mtu - 12 >= isize::MIN,
            old(self).state().timestamp + samples <= u32::MAX,
        ensures
            *final(payloader) == *old(payloader),
            match old(payloader).chunks(
                (old(self).state().mtu - 12) as isize,
                bytes_view(*payload),
            ) {
                Err(e) => {
                    &&& r == Err::<Vec<Packet>, Error>(e)
                    &&& final(self).state() == old(self).state()
                    &&& *final(sequencer) == *old(sequencer)
                },
                Ok(chunks) => {
                    let state = old(self).state();
                    let plain = plain_packets(
                        chunks,
                        state.payload_type,
                        state.ssrc,
                        state.timestamp,
                        *old(sequencer),
                    );
                    &&& final(self).state() == advanced(state, samples)
                    &&& forall|k: nat| #[trigger]
                        final(sequencer).upcoming(k) == old(sequencer).upcoming(k + chunks.len())
                    &&& match r {
                        Ok(packets) => if stamps(state, chunks.len()) {
                            exists|send_time: Duration|
                                packet_views(packets@) == stamped(
                                    plain,
                                    state.abs_send_time,
                                    #[trigger] send_time_bytes(send_time),
                                )
                        } else {
                            packet_views(packets@) == plain
                        },
                        Err(e) => stamps(state, chunks.len()) && !state.injected_time
                            && e is SystemTime,
                    }
                },
            },
    ;

    /// Enables the abs-send-time extension under the id `value`; with 0 it
    /// is disabled.
    fn enable_abs_send_time(&mut self, value: u8)
        ensures
            final(self).state() == (PacketizerState {
                abs_send_time: value,
                ..old(self).state()
            }),
    ;
}

struct PacketizerImpl<F: Fn() -> Duration> {
    mtu: isize,
    payload_type: u8,
    ssrc: u32,
    timestamp: u32,
    clock_rate: u32,
    abs_send_time: u8,
    time_gen: Option<F>,
}

impl<F: Fn() -> Duration> PacketizerImpl<F> {
    /// The time source handed in, if any, can be called.
    #[verifier::type_invariant]
    spec fn callable(&self) -> bool {
        self.time_gen matches Some(f) ==> f.requires(())
    }
}

/// A packetizer for packets of at most `mtu` bytes with the given payload
/// type and SSRC, whose first packets get `timestamp`. The time of sending
/// comes from `time_gen` where one is given, else from the system clock.
/// The abs-send-time extension is not enabled.
pub fn new_packetizer<F: Fn() -> Duration>(
    mtu: isize,
    payload_type: u8,
    ssrc: u32,
    clock_rate: u32,
    timestamp: u32,
    time_gen: Option<F>,
) -> (p: impl Packetizer)
    requires
        time_gen matches Some(f) ==> f.requires(()),
    ensures
        p.state() == (PacketizerState {
            mtu,
            payload_type,
            ssrc,
            timestamp,
            clock_rate,
            abs_send_time: 0,
            injected_time: time_gen is Some,
        }),
{
    PacketizerImpl { mtu, payload_type, ssrc, timestamp, clock_rate, abs_send_time: 0, time_gen }
}

impl<F: Fn() -> Duration> Packetizer for PacketizerImpl<F> {
    closed spec fn state(&self) -> PacketizerState {
        PacketizerState {
            mtu: self.mtu,
            payload_type: self.payload_type,
            ssrc: self.ssrc,
            timestamp: self.timestamp,
            clock_rate: self.clock_rate,
            abs_send_time: self.abs_send_time,
            injected_time: self.time_gen is Some,
        }
    }

    fn enable_abs_send_time(&mut self, value: u8) {
        proof {
            use_type_invariant(&*self);
        }
        self.abs_send_time = value
    }

    fn packetize<P: Payloader, S: Sequencer>(
        &mut self,
        payload: &Bytes,
        payloader: &mut P,
        sequencer: &mut S,
        samples: u32,
    ) -> (r: Result<Vec<Packet>, Error>) {
        proof {
            use_type_invariant(&*self);
        }
        let payloads = match payloader.payload(self.mtu - 12, payload) {
            Ok(payloads) => payloads,
            Err(e) => {
                return Err(e);
            },
        };
        let l: usize = payloads.len();
        let mut packets = wrap_chunks(
            &payloads,
            self.payload_type,
            self.ssrc,
            self.timestamp,
            sequencer,
        );
        let ghost plain = packet_views(packets@);
        self.timestamp += samples;
        if l != 0 && self.abs_send_time != 0 {
            let d: Duration = match &self.time_gen {
                Some(fn_time_gen) => fn_time_gen(),
                None => match since_unix_epoch(&system_now()) {
                    Ok(d) => d,
                    Err(e) => {
                        return Err(Error::SystemTime(e));
                    },
                },
            };
            assert(plain.len() == l && packets@.len() == l);
            assert(packets@.last()@ == plain[l - 1]);
            stamp_send_time(&mut packets, self.abs_send_time, d)?;
            assert(packet_views(packets@) == stamped(
                plain,
                old(self).state().abs_send_time,
                send_time_bytes(d),
            ));
        }
        Ok(packets)
    }
}

/// The header of a packet as the packetizer first makes it can be written
/// and read back, where the payload type fits its seven bits.
pub proof fn lemma_plain_header_canonical(
    payload_type: u8,
    ssrc: u32,
    timestamp: u32,
    sequence_number: u16,
    marker: bool,
)
    requires
        payload_type < 128,
    ensures
        canonical(plain_header(payload_type, ssrc, timestamp, sequence_number, marker)),
{
}

/// The header of a packet that was stamped with the time of sending can be
/// written and read back, where the payload type fits its seven bits and the
/// id of the extension lies between 1 and 14.
pub proof fn lemma_stamped_header_canonical(
    payload_type: u8,
    ssrc: u32,
    timestamp: u32,
    sequence_number: u16,
    marker: bool,
    id: u8,
    send_time: Duration,
)
    requires
        payload_type < 128,
        1 <= id <= 14,
    ensures
        canonical(
            with_extension(
                plain_header(payload_type, ssrc, timestamp, sequence_number, marker),
                id,
                send_time_bytes(send_time),
            ),
        ),
{
    let h = with_extension(
        plain_header(payload_type, ssrc, timestamp, sequence_number, marker),
        id,
        send_time_bytes(send_time),
    );
    assert(h.extension_profile == EXTENSION_PROFILE_ONE_BYTE);
    assert(h.extensions.len() == 1);
    assert(h.extensions[0].payload.len() == 3);
    assert(h.extensions.skip(1).len() == 0);
    assert(body_bytes(h.extension_profile, h.extensions.skip(1)).len() == 0);
    assert(body_bytes(h.extension_profile, h.extensions).len() == 4);
    assert(h.extensions[0].id == id);
    assert(one_byte_fault(h.extensions.skip(1)) is None);
    assert(one_byte_fault(h.extensions) is None);
}

} // verus!
