use bytes::Bytes;
use rtp::codecs::opus::{OpusPacket, OpusPayloader};
use rtp::packetizer::{Depacketizer, Payloader};
use rtp::Error;

#[test]
fn test_opus_unmarshal() -> Result<(), Error> {
    let mut pck = OpusPacket::default();

    // Empty packet
    let empty_bytes = Bytes::from_static(&[]);
    let result = pck.depacketize(&empty_bytes);
    assert!(result.is_err(), "Result should be err in case of error");

    // Normal packet
    let raw_bytes = Bytes::from_static(&[0x00, 0x11, 0x22, 0x33, 0x44, 0x55, 0x66, 0x90]);
    pck.depacketize(&raw_bytes)?;
    assert_eq!(&raw_bytes, &pck.payload, "Payload must be same");

    Ok(())
}

#[test]
fn test_opus_payload() -> Result<(), Error> {
    let pck = OpusPayloader;
    let empty = Bytes::from_static(&[]);
    let payload = Bytes::from_static(&[0x90, 0x90, 0x90]);

    // Positive MTU, empty payload
    let result = pck.payload(1, &empty)?;
    assert!(result.is_empty(), "Generated payload should be empty");

    // Positive MTU, small payload
    let result = pck.payload(1, &payload)?;
    assert_eq!(result.len(), 1, "Generated payload should be the 1");

    // Positive MTU, small payload
    let result = pck.payload(2, &payload)?;
    assert_eq!(result.len(), 1, "Generated payload should be the 1");

    Ok(())
}

#[test]
fn opus_payload_is_the_whole_input() {
    let payload = Bytes::from_static(&[0x90, 0x91, 0x92]);
    let result = OpusPayloader.payload(1500, &payload).unwrap();
    assert_eq!(result, vec![vec![0x90u8, 0x91, 0x92]]);
}

#[test]
fn opus_payload_without_budget_is_empty() {
    let payload = Bytes::from_static(&[0x90, 0x91, 0x92]);
    assert!(OpusPayloader.payload(0, &payload).unwrap().is_empty());
    assert!(OpusPayloader.payload(-1, &payload).unwrap().is_empty());
}

#[test]
fn opus_depacketize_empty_keeps_what_was_held() {
    let mut pck = OpusPacket::default();
    let first = Bytes::from_static(&[1, 2, 3]);
    pck.depacketize(&first).unwrap();
    let result = pck.depacketize(&Bytes::new());
    assert!(matches!(result, Err(Error::PayloadIsNotLargeEnough)));
    assert_eq!(pck.payload, first);
}
