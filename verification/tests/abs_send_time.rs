use bytes::{Bytes, BytesMut};
use rtp::extension::abs_send_time_extension::{ntp2unix, unix2ntp, AbsSendTimeExtension};
use rtp::Error;
use std::time::Duration;

#[test]
fn unix2ntp_of_epoch() {
    assert_eq!(unix2ntp(Duration::from_secs(0)), 0x83AA_7E80_0000_0000);
}

#[test]
fn unix2ntp_exact_values() {
    assert_eq!(unix2ntp(Duration::from_nanos(488_365_200_000_000_000)), 0xa0c6_5b10_0000_0000);
    assert_eq!(unix2ntp(Duration::from_nanos(946_702_799_000_001_000)), 0xbc18_084f_0000_10c6);
    assert_eq!(unix2ntp(Duration::from_nanos(1_553_693_970_008_675_309)), 0xe045_fb92_0238_8b88);
}

#[test]
fn ntp2unix_exact_values() {
    assert_eq!(ntp2unix(0x83AA_7E80_0000_0000), Duration::from_secs(0));
    assert_eq!(ntp2unix(0xa0c6_5b10_0000_0000), Duration::from_nanos(488_365_200_000_000_000));
    assert_eq!(ntp2unix(0xbc18_084f_0000_10c6), Duration::from_nanos(946_702_799_000_000_999));
    assert_eq!(ntp2unix(0xe045_fb92_0238_8b88), Duration::from_nanos(1_553_693_970_008_675_308));
}

#[test]
fn new_keeps_all_but_the_low_14_bits() {
    let e = AbsSendTimeExtension::new(Duration::from_nanos(1_553_693_970_008_675_309));
    assert_eq!(e.timestamp, 0x3_8117_ee48_08e2);
    let e = AbsSendTimeExtension::new(Duration::from_secs(0));
    assert_eq!(e.timestamp, 0x2_0ea9_fa00_0000);
}

#[test]
fn abs_send_time_marshal() {
    let e = AbsSendTimeExtension { timestamp: 0x3_8117_ee48_08e2 };
    let mut buf = BytesMut::new();
    let n = e.marshal_to(&mut buf).unwrap();
    assert_eq!(n, 3);
    assert_eq!(e.marshal_size(), 3);
    assert_eq!(&buf[..], &[0x48, 0x08, 0xe2]);
    assert_eq!(e.marshal().unwrap(), Bytes::from_static(&[0x48, 0x08, 0xe2]));
}

#[test]
fn abs_send_time_marshal_appends() {
    let e = AbsSendTimeExtension { timestamp: 123456 };
    let mut buf = BytesMut::new();
    buf.extend_from_slice(&[9, 9]);
    e.marshal_to(&mut buf).unwrap();
    assert_eq!(&buf[..], &[9, 9, 1, 226, 64]);
}

#[test]
fn abs_send_time_unmarshal() {
    let e = AbsSendTimeExtension::unmarshal(&Bytes::from_static(&[1, 226, 64])).unwrap();
    assert_eq!(e.timestamp, 123456);
    let e = AbsSendTimeExtension::unmarshal(&Bytes::from_static(&[0x48, 0x08, 0xe2, 0xff])).unwrap();
    assert_eq!(e.timestamp, 0x4808e2);
}

#[test]
fn abs_send_time_unmarshal_too_small() {
    let r = AbsSendTimeExtension::unmarshal(&Bytes::from_static(&[1, 2]));
    assert!(matches!(r, Err(Error::errTooSmall)));
    let r = AbsSendTimeExtension::unmarshal(&Bytes::new());
    assert!(matches!(r, Err(Error::errTooSmall)));
}

#[test]
fn estimate_of_own_time() {
    for nanos in [
        488_365_200_000_000_000u64,
        946_702_799_000_001_000,
        1_553_693_970_008_675_309,
        1_600_000_000_123_456_789,
    ] {
        let t = Duration::from_nanos(nanos);
        let estimated = AbsSendTimeExtension::new(t).estimate(t);
        assert!(estimated <= t);
        assert!(t - estimated < Duration::from_nanos(3816));
    }
}

#[test]
fn estimate_exact_values() {
    let t = Duration::from_nanos(1_553_693_970_008_675_309);
    let e = AbsSendTimeExtension::new(t);
    assert_eq!(e.estimate(t), Duration::from_nanos(1_553_693_970_008_674_621));
    assert_eq!(
        e.estimate(t + Duration::from_millis(20)),
        Duration::from_nanos(1_553_693_970_008_674_621)
    );
    assert_eq!(
        e.estimate(t + Duration::from_secs(63)),
        Duration::from_nanos(1_553_693_970_008_674_621)
    );
    // more than 64 seconds under way: one period off
    assert_eq!(
        e.estimate(t + Duration::from_secs(65)),
        Duration::from_nanos(1_553_694_034_008_674_621)
    );
}

#[test]
fn estimate_folds_back_a_stamp_that_lies_ahead() {
    let receive = Duration::from_nanos(1_553_693_970_008_675_309);
    let ahead = AbsSendTimeExtension { timestamp: 0xFF_FFFF };
    assert_eq!(ahead.estimate(receive), Duration::from_nanos(1_553_693_951_999_996_185));
    let behind = AbsSendTimeExtension { timestamp: 0 };
    assert_eq!(behind.estimate(receive), Duration::from_nanos(1_553_693_952_000_000_000));
}

#[test]
fn estimate_uses_only_the_low_24_bits() {
    let receive = Duration::from_nanos(1_553_693_970_008_675_309);
    let a = AbsSendTimeExtension { timestamp: 0x4808e2 };
    let b = AbsSendTimeExtension { timestamp: 0x3_8117_ee48_08e2 };
    assert_eq!(a.estimate(receive), b.estimate(receive));
}

#[test]
fn checked_estimate_agrees_with_estimate() {
    let t = Duration::from_nanos(1_553_693_970_008_675_309);
    let e = AbsSendTimeExtension::new(t);
    assert_eq!(e.checked_estimate(t), Some(Duration::from_nanos(1_553_693_970_008_674_621)));
}

#[test]
fn checked_estimate_before_the_unix_epoch() {
    // the stamp lies ahead of the time of arrival, so the estimate is folded
    // back by 64 seconds, to before the Unix epoch
    let e = AbsSendTimeExtension { timestamp: 0xFF_FFFF };
    assert_eq!(e.checked_estimate(Duration::from_secs(1)), None);
}
