use bytes::{Bytes, BytesMut};
use rtp::header::{Extension, Header};
use rtp::packet::Packet;
use rtp::Error;

const RAW: [u8; 25] = [
    0x90, 0xe0, 0x69, 0x8f, 0xd9, 0xc2, 0x93, 0xda, 0x1c, 0x64, 0x27, 0x82, 0x00, 0x01, 0x00, 0x01,
    0xFF, 0xFF, 0xFF, 0xFF, 0x98, 0x36, 0xbe, 0x88, 0x9e,
];

fn parsed() -> Packet {
    Packet {
        header: Header {
            version: 2,
            padding: false,
            extension: true,
            marker: true,
            payload_type: 96,
            sequence_number: 27023,
            timestamp: 3653407706,
            ssrc: 476325762,
            csrc: vec![],
            extension_profile: 1,
            extensions: vec![Extension { id: 0, payload: vec![0xFF, 0xFF, 0xFF, 0xFF] }],
        },
        payload: Bytes::from_static(&[0x98, 0x36, 0xbe, 0x88, 0x9e]),
    }
}

#[test]
fn packet_unmarshal() {
    let p = Packet::unmarshal(&Bytes::from_static(&RAW)).unwrap();
    assert_eq!(p, parsed());
    assert_eq!(p.marshal_size(), 25);
}

#[test]
fn packet_marshal() {
    let p = parsed();
    assert_eq!(p.marshal().unwrap(), Bytes::from_static(&RAW));
    let mut buf = BytesMut::new();
    buf.extend_from_slice(&[1, 2]);
    let n = p.marshal_to(&mut buf).unwrap();
    assert_eq!(n, 25);
    assert_eq!(&buf[..2], &[1, 2]);
    assert_eq!(&buf[2..], &RAW[..]);
}

#[test]
fn packet_minimal() {
    let raw = Bytes::from_static(&[0x80, 0, 0, 0, 0, 0, 0, 0, 0, 0, 0, 0]);
    let p = Packet::unmarshal(&raw).unwrap();
    assert!(p.payload.is_empty());
    assert_eq!(p.marshal_size(), 12);
    assert_eq!(p.header, Header { version: 2, ..Header::default() });
    assert_eq!(p.marshal().unwrap(), raw);
}

#[test]
fn packet_unmarshal_errors_are_those_of_the_header() {
    assert!(matches!(Packet::unmarshal(&Bytes::new()), Err(Error::errHeaderSizeInsufficient)));
    assert!(matches!(
        Packet::unmarshal(&Bytes::from_static(&RAW[..18])),
        Err(Error::errHeaderSizeInsufficientForExtension)
    ));
    let raw = Bytes::from_static(&[
        0x90, 0, 0, 0, 0, 0, 0, 0, 0, 0, 0, 0, 0xBE, 0xDE, 0, 1, 0x17, 1, 2, 3, 4, 5, 6, 7, 8,
    ]);
    assert!(matches!(Packet::unmarshal(&raw), Err(Error::errTooSmall)));
}

#[test]
fn packet_payload_starts_behind_the_padded_extensions() {
    let raw = Bytes::from_static(&[
        0x90, 0, 0, 0, 0, 0, 0, 0, 0, 0, 0, 0, 0xBE, 0xDE, 0, 2, 0x10, 0xAA, 0, 0, 0, 0, 0, 0, 0x42,
        0x43,
    ]);
    let p = Packet::unmarshal(&raw).unwrap();
    assert_eq!(p.header.extensions, vec![Extension { id: 1, payload: vec![0xAA] }]);
    assert_eq!(p.payload, Bytes::from_static(&[0x42, 0x43]));
}

#[test]
fn packet_marshal_refused_writes_nothing() {
    let mut p = parsed();
    p.header.extensions[0].id = 3;
    assert!(matches!(p.marshal(), Err(Error::errRFC3550HeaderIDRange)));
    let mut buf = BytesMut::new();
    buf.extend_from_slice(&[5]);
    assert!(p.marshal_to(&mut buf).is_err());
    assert_eq!(&buf[..], &[5]);
}

#[test]
fn packet_roundtrip() {
    let p = Packet {
        header: Header {
            version: 2,
            padding: false,
            extension: true,
            marker: false,
            payload_type: 111,
            sequence_number: 65535,
            timestamp: u32::MAX,
            ssrc: 1,
            csrc: vec![7, 8],
            extension_profile: 0xBEDE,
            extensions: vec![
                Extension { id: 1, payload: vec![1, 2, 3] },
                Extension { id: 2, payload: vec![4] },
            ],
        },
        payload: Bytes::from_static(&[0, 0, 0, 9, 0]),
    };
    let raw = p.marshal().unwrap();
    assert_eq!(raw.len(), p.marshal_size());
    assert_eq!(Packet::unmarshal(&raw).unwrap(), p);
}

#[test]
fn default_packet() {
    let p = Packet::default();
    assert!(p.payload.is_empty());
    assert_eq!(p.header, Header::default());
}

#[test]
fn packet_is_encodable() {
    assert!(parsed().is_encodable());
    let mut p = parsed();
    p.header.csrc = vec![0; 16];
    assert!(!p.is_encodable());
}
