//! The abs-send-time header extension: a coarse stamp of the time of
//! sending, 24 bits of an NTP time with 18 bits of fraction.

use crate::buf::{as_slice, bytes_mut_view, bytes_view, put_u8};
use crate::error::Error;
use crate::time::duration_nanos;
use bytes::{Bytes, BytesMut};
use std::time::Duration;
use vstd::arithmetic::div_mod::{
    lemma_fundamental_div_mod_converse, lemma_mod_multiples_vanish, lemma_small_mod,
};
use vstd::prelude::*;

verus! {

/// The number of bytes of an abs-send-time extension on the wire.
pub const ABS_SEND_TIME_EXTENSION_SIZE: usize = 3;

/// The seconds between the NTP epoch (1900) and the Unix epoch (1970).
pub const NTP_EPOCH_OFFSET: u64 = 0x83AA_7E80;

/// An abs-send-time extension. `timestamp` is an NTP time in units of
/// 2^-18 seconds; its low 24 bits go on the wire.
pub struct AbsSendTimeExtension {
    pub timestamp: u64,
}

/// The nanoseconds of a duration as `unix2ntp` takes them: cut to 64 bits.
pub open spec fn nanos_u64(d: Duration) -> u64 {
    (duration_nanos(d) % 0x1_0000_0000_0000_0000) as u64
}

/// The NTP time of a Unix time of `nanos` nanoseconds: the seconds since
/// 1900 in the high 32 bits (cut to 32 bits), the fraction of a second in
/// units of 2^-32 seconds, rounded down, in the low 32 bits.
pub open spec fn ntp_of_nanos(nanos: u64) -> u64 {
    let secs = (nanos / 1_000_000_000 + NTP_EPOCH_OFFSET) % 0x1_0000_0000;
    let fraction = (nanos % 1_000_000_000) * 0x1_0000_0000 / 1_000_000_000;
    (secs * 0x1_0000_0000 + fraction) as u64
}

/// The nanoseconds since the Unix epoch of an NTP time that is not before
/// it, the fraction rounded down.
pub open spec fn nanos_of_ntp(ntp: u64) -> int {
    (ntp / 0x1_0000_0000 - NTP_EPOCH_OFFSET) * 1_000_000_000 + (ntp % 0x1_0000_0000)
        * 1_000_000_000 / 0x1_0000_0000
}

/// The NTP time that a stamp stands for, given the NTP time `receive` at
/// which it arrived: the latest time not after `receive` whose bits 14 to 37
/// are the stamp's low 24 bits and whose low 14 bits are zero. The stamp
/// repeats every 2^38 units (64 seconds); where the time with the high bits
/// of `receive` comes out after `receive`, it lies one such period earlier.
pub open spec fn estimate_ntp(timestamp: u64, receive: u64) -> int {
    let candidate = receive / 0x40_0000_0000 * 0x40_0000_0000 + (timestamp % 0x100_0000) * 0x4000;
    if receive < candidate {
        candidate - 0x40_0000_0000
    } else {
        candidate
    }
}

/// The three bytes of a stamp on the wire: its low 24 bits, big-endian.
pub open spec fn stamp_bytes(timestamp: u64) -> Seq<u8> {
    seq![
        (timestamp / 0x1_0000 % 256) as u8,
        (timestamp / 256 % 256) as u8,
        (timestamp % 256) as u8,
    ]
}

/// The stamp that three bytes stand for.
pub open spec fn stamp_of_bytes(b0: u8, b1: u8, b2: u8) -> u64 {
    (b0 * 0x1_0000 + b1 * 256 + b2) as u64
}

/// Converts a Unix time to an NTP time of 32 bits of seconds and 32 bits of
/// fraction.
pub fn unix2ntp(t: Duration) -> (ntp: u64)
    ensures
        ntp == ntp_of_nanos(nanos_u64(t)),
{
    let n: u128 = t.as_nanos();
    let u: u64 = #[verifier::truncate] (n as u64);
    assert(u == n % 0x1_0000_0000_0000_0000) by (bit_vector)
        requires
            u == n as u64,
    ;
    assert(u == nanos_u64(t));
    let mut s: u64 = u / 1_000_000_000;
    s += 0x83AA_7E80;
    let mut f: u64 = u % 1_000_000_000;
    let ghost f_in = f;
    assert(f << 32 == f * 0x1_0000_0000) by (bit_vector)
        requires
            f < 1_000_000_000,
    ;
    f <<= 32;
    f /= 1_000_000_000;
    assert(f == f_in * 0x1_0000_0000 / 1_000_000_000);
    let ghost s0 = s;
    assert(s << 32 == (s % 0x1_0000_0000) * 0x1_0000_0000) by (bit_vector);
    s <<= 32;
    assert(s | f == s + f) by (bit_vector)
        requires
            s == (s0 % 0x1_0000_0000) * 0x1_0000_0000,
            f < 0x1_0000_0000,
    ;
    assert(s + f == ntp_of_nanos(u));
    s | f
}

/// Converts an NTP time that is not before the Unix epoch to a Unix time.
pub fn ntp2unix(t: u64) -> (d: Duration)
    requires
        t / 0x1_0000_0000 >= NTP_EPOCH_OFFSET,
    ensures
        duration_nanos(d) == nanos_of_ntp(t),
{
    let mut s: u64 = t >> 32;
    let mut f: u64 = t & 0xFFFF_FFFF;
    assert(t >> 32 == t / 0x1_0000_0000) by (bit_vector);
    assert(t & 0xFFFF_FFFF == t % 0x1_0000_0000) by (bit_vector);
    f *= 1_000_000_000;
    let ghost f0 = f;
    assert(f0 >> 32 == f0 / 0x1_0000_0000) by (bit_vector);
    f >>= 32;
    s -= 0x83AA_7E80;
    let u: u64 = s * 1_000_000_000 + f;
    Duration::new(u / 1_000_000_000, (u % 1_000_000_000) as u32)
}

/// The NTP time with the high bits of `receive_ntp` and the low 24 bits of
/// `timestamp` in the bits 14 to 37.
fn candidate(timestamp: u64, receive_ntp: u64) -> (ntp: u64)
    ensures
        ntp == receive_ntp / 0x40_0000_0000 * 0x40_0000_0000 + (timestamp % 0x100_0000) * 0x4000,
{
    let high: u64 = receive_ntp & 0xFFFF_FFC0_0000_0000;
    let low: u64 = (timestamp & 0xFF_FFFF) << 14;
    assert(high == receive_ntp / 0x40_0000_0000 * 0x40_0000_0000) by (bit_vector)
        requires
            high == receive_ntp & 0xFFFF_FFC0_0000_0000,
    ;
    assert(low == (timestamp % 0x100_0000) * 0x4000) by (bit_vector)
        requires
            low == (timestamp & 0xFF_FFFF) << 14,
    ;
    assert(high | low == high + low) by (bit_vector)
        requires
            high == receive_ntp & 0xFFFF_FFC0_0000_0000,
            low == (timestamp & 0xFF_FFFF) << 14,
    ;
    high | low
}

impl AbsSendTimeExtension {
    /// The extension for a time of sending, given as a Unix time: its NTP
    /// time without the low 14 bits.
    pub fn new(send_time: Duration) -> (e: Self)
        ensures
            e.timestamp == ntp_of_nanos(nanos_u64(send_time)) / 0x4000,
    {
        let ntp = unix2ntp(send_time);
        assert(ntp >> 14 == ntp / 0x4000) by (bit_vector);
        AbsSendTimeExtension { timestamp: ntp >> 14 }
    }

    /// Estimates the time of sending, as a Unix time, from the time at which
    /// the stamp arrived. The estimate is wrong where the packet was under
    /// way for more than 64 seconds. The estimated time must not lie before
    /// the Unix epoch.
    pub fn estimate(&self, receive: Duration) -> (d: Duration)
        requires
            estimate_ntp(self.timestamp, ntp_of_nanos(nanos_u64(receive))) >= NTP_EPOCH_OFFSET
                * 0x1_0000_0000,
        ensures
            duration_nanos(d) == nanos_of_ntp(
                estimate_ntp(self.timestamp, ntp_of_nanos(nanos_u64(receive))) as u64,
            ),
    {
        let receive_ntp = unix2ntp(receive);
        let mut ntp = candidate(self.timestamp, receive_ntp);
        if receive_ntp < ntp {
            // the time of arrival is never before the time of sending
            ntp -= 0x40_0000_0000;
        }
        ntp2unix(ntp)
    }

    /// Estimates the time of sending as `estimate` does, where the estimated
    /// time does not lie before the Unix epoch; `None` where it does.
    pub fn checked_estimate(&self, receive: Duration) -> (r: Option<Duration>)
        ensures
            r is Some <==> estimate_ntp(self.timestamp, ntp_of_nanos(nanos_u64(receive)))
                >= NTP_EPOCH_OFFSET * 0x1_0000_0000,
            r matches Some(d) ==> duration_nanos(d) == nanos_of_ntp(
                estimate_ntp(self.timestamp, ntp_of_nanos(nanos_u64(receive))) as u64,
            ),
    {
        let receive_ntp = unix2ntp(receive);
        let ntp = candidate(self.timestamp, receive_ntp);
        let period: u64 = 0x40_0000_0000;
        let epoch: u64 = 0x83AA_7E80_0000_0000;
        if ntp < epoch || (receive_ntp < ntp && ntp - epoch < period) {
            None
        } else {
            Some(self.estimate(receive))
        }
    }

    /// Reads an extension from the first three bytes of `raw_packet`.
    pub fn unmarshal(raw_packet: &Bytes) -> (r: Result<Self, Error>)
        ensures
            match r {
                Ok(e) => {
                    let raw = bytes_view(*raw_packet);
                    raw.len() >= 3 && e.timestamp == stamp_of_bytes(raw[0], raw[1], raw[2])
                },
                Err(e) => bytes_view(*raw_packet).len() < 3 && e == Error::errTooSmall,
            },
    {
        let raw = as_slice(raw_packet);
        if raw.len() < ABS_SEND_TIME_EXTENSION_SIZE {
            return Err(Error::errTooSmall);
        }
        let b0: u8 = raw[0];
        let b1: u8 = raw[1];
        let b2: u8 = raw[2];
        let timestamp: u64 = (b0 as u64) << 16 | (b1 as u64) << 8 | b2 as u64;
        assert(timestamp == b0 * 0x1_0000 + b1 * 256 + b2) by (bit_vector)
            requires
                timestamp == (b0 as u64) << 16 | (b1 as u64) << 8 | b2 as u64,
        ;
        Ok(AbsSendTimeExtension { timestamp })
    }

    /// The number of bytes that `marshal_to` writes.
    pub fn marshal_size(&self) -> (n: usize)
        ensures
            n == 3,
    {
        ABS_SEND_TIME_EXTENSION_SIZE
    }

    /// Appends the low 24 bits of the stamp to `buf`, big-endian, and
    /// returns the number of bytes written. The buffer must have room to
    /// grow by them.
    pub fn marshal_to(&self, buf: &mut BytesMut) -> (r: Result<usize, Error>)
        requires
            bytes_mut_view(*old(buf)).len() + 3 <= isize::MAX,
        ensures
            r == Ok::<usize, Error>(3),
            bytes_mut_view(*final(buf)) == bytes_mut_view(*old(buf)) + stamp_bytes(self.timestamp),
    {
        let t = self.timestamp;
        let b0: u8 = ((t & 0xFF_0000) >> 16) as u8;
        let b1: u8 = ((t & 0xFF00) >> 8) as u8;
        let b2: u8 = (t & 0xFF) as u8;
        assert((t & 0xFF_0000) >> 16 == t / 0x1_0000 % 256) by (bit_vector);
        assert((t & 0xFF00) >> 8 == t / 256 % 256) by (bit_vector);
        assert(t & 0xFF == t % 256) by (bit_vector);
        put_u8(buf, b0);
        put_u8(buf, b1);
        put_u8(buf, b2);
        assert(bytes_mut_view(*buf) =~= bytes_mut_view(*old(buf)) + stamp_bytes(self.timestamp));
        Ok(ABS_SEND_TIME_EXTENSION_SIZE)
    }

    /// The three bytes of the extension on the wire.
    pub fn marshal(&self) -> (r: Result<Bytes, Error>)
        ensures
            r matches Ok(b) && bytes_view(b) == stamp_bytes(self.timestamp),
    {
        let mut buf = BytesMut::with_capacity(ABS_SEND_TIME_EXTENSION_SIZE);
        match self.marshal_to(&mut buf) {
            Ok(_) => {
                assert(bytes_mut_view(buf) =~= stamp_bytes(self.timestamp));
                Ok(buf.freeze())
            },
            Err(e) => Err(e),
        }
    }
}

/// The bytes of a stamp stand for its low 24 bits.
pub proof fn lemma_stamp_roundtrip(timestamp: u64)
    ensures
        stamp_bytes(timestamp).len() == 3,
        stamp_of_bytes(
            stamp_bytes(timestamp)[0],
            stamp_bytes(timestamp)[1],
            stamp_bytes(timestamp)[2],
        ) == timestamp % 0x100_0000,
{
}

/// A stamp made of the NTP time `send`, arriving at the NTP time `receive`
/// not before `send` and less than 2^38 units (64 seconds) after the
/// stamp's own time, is estimated as `send` without its low 14 bits.
pub proof fn lemma_estimate_recovers(send: u64, receive: u64)
    requires
        send <= receive,
        receive - (send - send % 0x4000) < 0x40_0000_0000,
    ensures
        estimate_ntp(send / 0x4000, receive) == send - send % 0x4000,
{
    let stamp = send / 0x4000;
    let floor = send - send % 0x4000;
    assert(floor == stamp * 0x4000);
    assert(stamp % 0x100_0000 == stamp - (stamp / 0x100_0000) * 0x100_0000);
    assert(stamp / 0x100_0000 == send / 0x40_0000_0000);
    assert(floor == send / 0x40_0000_0000 * 0x40_0000_0000 + (stamp % 0x100_0000) * 0x4000);
    if receive / 0x40_0000_0000 == send / 0x40_0000_0000 {
    } else {
        assert(receive / 0x40_0000_0000 == send / 0x40_0000_0000 + 1);
    }
}

/// A fraction of a second of `f` nanoseconds, turned into units of 2^-32
/// seconds, cut to a multiple of 2^14 and turned back, has lost less than
/// 3816 nanoseconds.
proof fn lemma_fraction_resolution(f: int)
    requires
        0 <= f < 1_000_000_000,
    ensures
        ({
            let fraction = f * 0x1_0000_0000 / 1_000_000_000;
            let cut = fraction - fraction % 0x4000;
            let back = cut * 1_000_000_000 / 0x1_0000_0000;
            &&& 0 <= cut <= fraction < 0x1_0000_0000
            &&& back <= f < back + 3816
        }),
{
    let scaled = f * 0x1_0000_0000;
    let fraction = scaled / 1_000_000_000;
    assert(fraction * 1_000_000_000 <= scaled < fraction * 1_000_000_000 + 1_000_000_000);
    let cut = fraction - fraction % 0x4000;
    assert(fraction - 0x4000 < cut <= fraction);
    let product = cut * 1_000_000_000;
    let back = product / 0x1_0000_0000;
    assert(back * 0x1_0000_0000 <= product < back * 0x1_0000_0000 + 0x1_0000_0000);
}

/// Cutting the low 14 bits off a time of `high` seconds and `fraction`
/// units of 2^-32 seconds leaves the seconds and cuts the fraction.
proof fn lemma_cut_fraction(high: int, fraction: int)
    requires
        0 <= high < 0x1_0000_0000,
        0 <= fraction < 0x1_0000_0000,
    ensures
        ({
            let ntp = high * 0x1_0000_0000 + fraction;
            let floor = ntp - ntp % 0x4000;
            let cut = fraction - fraction % 0x4000;
            &&& floor == high * 0x1_0000_0000 + cut
            &&& floor / 0x1_0000_0000 == high
            &&& floor % 0x1_0000_0000 == cut
        }),
{
    let ntp = high * 0x1_0000_0000 + fraction;
    let cut = fraction - fraction % 0x4000;
    assert(ntp == 0x4000 * (high * 0x4_0000) + fraction);
    lemma_mod_multiples_vanish(high * 0x4_0000, fraction, 0x4000);
    assert(ntp % 0x4000 == fraction % 0x4000);
    let floor = ntp - ntp % 0x4000;
    assert(floor == high * 0x1_0000_0000 + cut);
    assert(0 <= cut < 0x1_0000_0000);
    lemma_fundamental_div_mod_converse(floor, 0x1_0000_0000, high, cut);
}

/// Turning a Unix time of `nanos` nanoseconds into an NTP time, dropping
/// the low 14 bits and turning it back loses less than 3816 nanoseconds,
/// and never gains any. The NTP seconds must fit 32 bits.
pub proof fn lemma_stamp_resolution(nanos: u64)
    requires
        nanos / 1_000_000_000 + NTP_EPOCH_OFFSET < 0x1_0000_0000,
    ensures
        ({
            let ntp = ntp_of_nanos(nanos);
            let floor = (ntp - ntp % 0x4000) as u64;
            &&& floor / 0x1_0000_0000 >= NTP_EPOCH_OFFSET
            &&& nanos_of_ntp(floor) <= nanos < nanos_of_ntp(floor) + 3816
        }),
{
    let secs: int = nanos as int / 1_000_000_000;
    let f: int = nanos as int % 1_000_000_000;
    let fraction: int = f * 0x1_0000_0000 / 1_000_000_000;
    let high: int = secs + NTP_EPOCH_OFFSET;
    lemma_fraction_resolution(f);
    lemma_cut_fraction(high, fraction);
    lemma_small_mod(high as nat, 0x1_0000_0000);
    let ntp = ntp_of_nanos(nanos);
    assert(ntp == high * 0x1_0000_0000 + fraction);
    let floor = (ntp - ntp % 0x4000) as u64;
    let cut: int = fraction - fraction % 0x4000;
    assert(floor / 0x1_0000_0000 == high);
    assert(floor % 0x1_0000_0000 == cut);
    assert(nanos_of_ntp(floor) == secs * 1_000_000_000 + cut * 1_000_000_000 / 0x1_0000_0000);
    assert(nanos == secs * 1_000_000_000 + f);
}

/// The estimate of the time of sending differs from the true time by less
/// than 3816 nanoseconds (well within 1/64 ms), and is never later, where
/// the stamp arrives not before it was made and less than 64 seconds
/// after the stamp's own time. Both NTP times must fit 32 bits of seconds.
pub proof fn lemma_estimate_near_send_time(send: u64, receive: u64)
    requires
        send / 1_000_000_000 + NTP_EPOCH_OFFSET < 0x1_0000_0000,
        ntp_of_nanos(send) <= ntp_of_nanos(receive),
        ntp_of_nanos(receive) - (ntp_of_nanos(send) - ntp_of_nanos(send) % 0x4000)
            < 0x40_0000_0000,
    ensures
        ({
            let stamp = (ntp_of_nanos(send) / 0x4000) as u64;
            let estimate = estimate_ntp(stamp, ntp_of_nanos(receive));
            &&& estimate >= NTP_EPOCH_OFFSET * 0x1_0000_0000
            &&& nanos_of_ntp(estimate as u64) <= send < nanos_of_ntp(estimate as u64) + 3816
        }),
{
    lemma_estimate_recovers(ntp_of_nanos(send), ntp_of_nanos(receive));
    lemma_stamp_resolution(send);
}

/// The estimate that an extension made of a time gives when it arrives at
/// that same time differs from the time by less than 3816 nanoseconds
/// (well within 1/64 ms), and is never later.
pub proof fn lemma_estimate_own_time(nanos: u64)
    requires
        nanos / 1_000_000_000 + NTP_EPOCH_OFFSET < 0x1_0000_0000,
    ensures
        ({
            let stamp = (ntp_of_nanos(nanos) / 0x4000) as u64;
            let estimate = estimate_ntp(stamp, ntp_of_nanos(nanos));
            &&& estimate >= NTP_EPOCH_OFFSET * 0x1_0000_0000
            &&& nanos_of_ntp(estimate as u64) <= nanos < nanos_of_ntp(estimate as u64) + 3816
        }),
{
    lemma_estimate_near_send_time(nanos, nanos);
}

} // verus!
