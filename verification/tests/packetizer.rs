use bytes::Bytes;
use rtp::codecs::opus::OpusPayloader;
use rtp::extension::abs_send_time_extension::AbsSendTimeExtension;
use rtp::header::{Extension, Header};
use rtp::packet::Packet;
use rtp::packetizer::{new_packetizer, stamp_send_time, wrap_chunks, Packetizer, Payloader};
use rtp::sequence::{Sequencer, WrappingSequencer};
use rtp::Error;
use std::time::Duration;

struct FixedChunks {
    size: usize,
}

impl Payloader for FixedChunks {
    fn payload(&self, mtu: isize, payload: &Bytes) -> Result<Vec<Vec<u8>>, Error> {
        assert!(mtu > 0);
        Ok(payload.chunks(self.size).map(|c| c.to_vec()).collect())
    }
}

struct Failing;

impl Payloader for Failing {
    fn payload(&self, _mtu: isize, _payload: &Bytes) -> Result<Vec<Vec<u8>>, Error> {
        Err(Error::PayloadIsNotLargeEnough)
    }
}

struct SeenMtu;

impl Payloader for SeenMtu {
    fn payload(&self, mtu: isize, _payload: &Bytes) -> Result<Vec<Vec<u8>>, Error> {
        Ok(vec![mtu.to_be_bytes().to_vec()])
    }
}

fn fixed_time() -> Duration {
    Duration::from_nanos(1_553_693_970_008_675_309)
}

fn no_time() -> Option<fn() -> Duration> {
    None
}

#[test]
fn packetize_three_chunks() {
    let input: Vec<u8> = (0..250u32).map(|i| i as u8).collect();
    let mut packetizer = new_packetizer(1500, 98, 0x1234ABCD, 90000, 45678, no_time());
    let mut sequencer = WrappingSequencer::new(0xFFFF);
    let mut payloader = FixedChunks { size: 100 };
    let packets = packetizer
        .packetize(&Bytes::from(input.clone()), &mut payloader, &mut sequencer, 2000)
        .unwrap();
    assert_eq!(packets.len(), 3);
    let sizes: Vec<usize> = packets.iter().map(|p| p.payload.len()).collect();
    assert_eq!(sizes, vec![100, 100, 50]);
    let numbers: Vec<u16> = packets.iter().map(|p| p.header.sequence_number).collect();
    assert_eq!(numbers, vec![0xFFFF, 0, 1]);
    let markers: Vec<bool> = packets.iter().map(|p| p.header.marker).collect();
    assert_eq!(markers, vec![false, false, true]);
    for p in &packets {
        assert_eq!(p.header.timestamp, 45678);
        assert_eq!(p.header.version, 2);
        assert_eq!(p.header.payload_type, 98);
        assert_eq!(p.header.ssrc, 0x1234ABCD);
        assert!(!p.header.padding && !p.header.extension);
        assert!(p.header.csrc.is_empty() && p.header.extensions.is_empty());
    }
    let joined: Vec<u8> = packets.iter().flat_map(|p| p.payload.to_vec()).collect();
    assert_eq!(joined, input);

    // the running timestamp has moved on by the samples
    let next = packetizer
        .packetize(&Bytes::from_static(&[1]), &mut payloader, &mut sequencer, 10)
        .unwrap();
    assert_eq!(next.len(), 1);
    assert_eq!(next[0].header.timestamp, 45678 + 2000);
    assert_eq!(next[0].header.sequence_number, 2);
    assert!(next[0].header.marker);
}

#[test]
fn packetize_hands_mtu_less_twelve_to_the_payloader() {
    let mut packetizer = new_packetizer(1500, 98, 1, 90000, 0, no_time());
    let mut sequencer = WrappingSequencer::new(0);
    let packets =
        packetizer.packetize(&Bytes::new(), &mut SeenMtu, &mut sequencer, 0).unwrap();
    assert_eq!(packets[0].payload.to_vec(), 1488isize.to_be_bytes().to_vec());
}

#[test]
fn packetize_empty_payload() {
    let mut packetizer = new_packetizer(1500, 98, 1, 90000, 100, Some(fixed_time));
    packetizer.enable_abs_send_time(3);
    let mut sequencer = WrappingSequencer::new(5);
    let packets =
        packetizer.packetize(&Bytes::new(), &mut OpusPayloader, &mut sequencer, 7).unwrap();
    assert!(packets.is_empty());
    assert_eq!(sequencer.next_sequence_number(), 5);
    let packets = packetizer
        .packetize(&Bytes::from_static(&[1, 2]), &mut OpusPayloader, &mut sequencer, 7)
        .unwrap();
    assert_eq!(packets[0].header.timestamp, 107);
}

#[test]
fn packetize_payloader_error_changes_nothing() {
    let mut packetizer = new_packetizer(1500, 98, 1, 90000, 100, no_time());
    let mut sequencer = WrappingSequencer::new(5);
    let r = packetizer.packetize(&Bytes::from_static(&[1]), &mut Failing, &mut sequencer, 7);
    assert!(matches!(r, Err(Error::PayloadIsNotLargeEnough)));
    let packets = packetizer
        .packetize(&Bytes::from_static(&[1, 2]), &mut OpusPayloader, &mut sequencer, 7)
        .unwrap();
    assert_eq!(packets.len(), 1);
    assert_eq!(packets[0].header.timestamp, 100);
    assert_eq!(packets[0].header.sequence_number, 5);
}

#[test]
fn packetize_with_abs_send_time() {
    let input = vec![7u8; 250];
    let mut packetizer = new_packetizer(1500, 98, 1, 90000, 0, Some(fixed_time));
    packetizer.enable_abs_send_time(1);
    let mut sequencer = WrappingSequencer::new(10);
    let mut payloader = FixedChunks { size: 100 };
    let packets =
        packetizer.packetize(&Bytes::from(input), &mut payloader, &mut sequencer, 2000).unwrap();
    assert_eq!(packets.len(), 3);
    assert!(!packets[0].header.extension && !packets[1].header.extension);
    let last = &packets[2].header;
    assert!(last.extension);
    assert_eq!(last.extension_profile, 0xBEDE);
    assert_eq!(last.extensions, vec![Extension { id: 1, payload: vec![0x48, 0x08, 0xe2] }]);
    assert!(last.marker);
    assert_eq!(last.sequence_number, 12);
    let raw = packets[2].marshal().unwrap();
    assert_eq!(&raw[12..20], &[0xBE, 0xDE, 0x00, 0x01, 0x12, 0x48, 0x08, 0xe2]);
}

#[test]
fn packetize_with_the_system_clock() {
    let mut packetizer = new_packetizer(1500, 98, 1, 90000, 0, no_time());
    packetizer.enable_abs_send_time(2);
    let mut sequencer = WrappingSequencer::new(10);
    let packets = packetizer
        .packetize(&Bytes::from_static(&[1, 2, 3]), &mut OpusPayloader, &mut sequencer, 1)
        .unwrap();
    assert_eq!(packets.len(), 1);
    assert_eq!(packets[0].header.extensions.len(), 1);
    assert_eq!(packets[0].header.extensions[0].id, 2);
    assert_eq!(packets[0].header.extensions[0].payload.len(), 3);
}

#[test]
fn abs_send_time_can_be_disabled_again() {
    let mut packetizer = new_packetizer(1500, 98, 1, 90000, 0, Some(fixed_time));
    packetizer.enable_abs_send_time(2);
    packetizer.enable_abs_send_time(0);
    let mut sequencer = WrappingSequencer::new(10);
    let packets = packetizer
        .packetize(&Bytes::from_static(&[1, 2, 3]), &mut OpusPayloader, &mut sequencer, 1)
        .unwrap();
    assert!(!packets[0].header.extension);
}

#[test]
fn wrap_chunks_numbers_and_marks() {
    let chunks = vec![vec![1u8; 100], vec![2u8; 100], vec![3u8; 50]];
    let mut sequencer = WrappingSequencer::new(65534);
    let packets = wrap_chunks(&chunks, 96, 9, 1000, &mut sequencer);
    assert_eq!(packets.len(), 3);
    for (i, p) in packets.iter().enumerate() {
        let expected = Packet {
            header: Header {
                version: 2,
                marker: i == 2,
                payload_type: 96,
                sequence_number: 65534u16.wrapping_add(i as u16),
                timestamp: 1000,
                ssrc: 9,
                ..Header::default()
            },
            payload: Bytes::from(chunks[i].clone()),
        };
        assert_eq!(p, &expected);
    }
    assert_eq!(sequencer.next_sequence_number(), 1);
    assert_eq!(sequencer.roll_over_count(), 1);
}

#[test]
fn wrap_no_chunks() {
    let mut sequencer = WrappingSequencer::new(3);
    assert!(wrap_chunks(&vec![], 96, 9, 1000, &mut sequencer).is_empty());
    assert_eq!(sequencer.next_sequence_number(), 3);
}

#[test]
fn stamp_send_time_sets_the_extension_of_the_last_packet() {
    let chunks = vec![vec![1u8], vec![2u8]];
    let mut sequencer = WrappingSequencer::new(0);
    let mut packets = wrap_chunks(&chunks, 96, 9, 1000, &mut sequencer);
    let t = Duration::from_nanos(1_600_000_000_123_456_789);
    stamp_send_time(&mut packets, 5, t);
    assert!(packets[0].header.extensions.is_empty());
    let stamp = AbsSendTimeExtension::new(t).marshal().unwrap();
    assert_eq!(stamp.to_vec(), vec![0x00, 0x7e, 0x6b]);
    assert_eq!(packets[1].header.extensions, vec![Extension { id: 5, payload: stamp.to_vec() }]);
    assert_eq!(packets[1].payload, Bytes::from_static(&[2]));
}
