//! Tests for the timing and control datagram codecs and the clock
//! reference.

use airtunes::hosts::{get_local_ip_port, parse_ipv4_line, port_to_string, source_allowed};
use airtunes::ntp::{NTP, NTP_EPOCH_MILLIS};
use airtunes::packets::{control_request, timing_reply, u16_from_be, u16_to_be, u32_to_be};

fn be32(b: &[u8]) -> u32 {
    u32::from_be_bytes([b[0], b[1], b[2], b[3]])
}

#[test]
fn byte_order_helpers() {
    assert_eq!(u16_to_be(0x1234), [0x12, 0x34]);
    assert_eq!(u16_from_be(0x12, 0x34), 0x1234);
    assert_eq!(u32_to_be(0xdeadbeef), [0xde, 0xad, 0xbe, 0xef]);
}

#[test]
fn timing_reply_echoes_request_timestamps() {
    let mut req = [0u8; 40];
    req[24..28].copy_from_slice(&[0x01, 0x02, 0x03, 0x04]);
    req[28..32].copy_from_slice(&[0x05, 0x06, 0x07, 0x08]);
    let ts = [0x11u8, 0x22, 0x33, 0x44, 0x55, 0x66, 0x77, 0x88];
    let reply = timing_reply(&req, &ts).unwrap();
    assert_eq!(reply.len(), 32);
    assert_eq!(&reply[0..2], &[0x80, 0xd3]);
    assert_eq!(&reply[2..4], &[0x00, 0x07]);
    assert_eq!(&reply[4..8], &[0, 0, 0, 0]);
    assert_eq!(&reply[8..12], &[0x01, 0x02, 0x03, 0x04]);
    assert_eq!(&reply[12..16], &[0x05, 0x06, 0x07, 0x08]);
    assert_eq!(&reply[16..24], &ts);
    assert_eq!(&reply[24..32], &ts);
}

#[test]
fn timing_reply_exact_bytes() {
    let mut req = [0u8; 32];
    for (i, b) in req.iter_mut().enumerate() {
        *b = i as u8;
    }
    let ts = [9u8, 9, 9, 9, 8, 8, 8, 8];
    let reply = timing_reply(&req, &ts).unwrap();
    let expected: Vec<u8> = vec![
        0x80, 0xd3, 0x00, 0x07, 0, 0, 0, 0, 24, 25, 26, 27, 28, 29, 30, 31, 9, 9, 9, 9, 8, 8, 8,
        8, 9, 9, 9, 9, 8, 8, 8, 8,
    ];
    assert_eq!(reply, expected);
}

#[test]
fn short_timing_request_gets_no_reply() {
    let req = [0u8; 31];
    let ts = [0u8; 8];
    assert!(timing_reply(&req, &ts).is_none());
    assert!(timing_reply(&[], &ts).is_none());
}

#[test]
fn control_request_extracts_sequence_and_count() {
    let mut msg = [0u8; 8];
    msg[1] = 0xd5;
    msg[4..6].copy_from_slice(&[0x00, 0x03]);
    msg[6..8].copy_from_slice(&[0x00, 0x02]);
    assert_eq!(control_request(&msg), Some((3, 2)));
}

#[test]
fn control_request_ignores_other_markers_and_short_datagrams() {
    let mut msg = [0u8; 8];
    msg[1] = 0x54;
    assert_eq!(control_request(&msg), None);
    let short = [0u8, 0xd5, 0, 0, 0, 3, 0];
    assert_eq!(control_request(&short), None);
}

#[test]
fn ntp_time_ref_is_anchored_to_epoch() {
    let ntp = NTP::anchored_at(5000);
    assert_eq!(ntp.time_ref(), 5000 - NTP_EPOCH_MILLIS);
    assert_eq!(NTP_EPOCH_MILLIS, 0x83aa7e80 * 1000);
}

#[test]
fn ntp_timestamp_encoding_is_exact() {
    let ntp = NTP::anchored_at(7_000);
    // 1500 ms since the epoch: 1 second, then 500 ms = 0x8000_0000 in
    // NTP fixed-point.
    let ts = ntp.timestamp_at(ntp.time_ref() + 1_500);
    assert_eq!(ts.len(), 8);
    assert_eq!(be32(&ts[0..4]), 1);
    assert_eq!(be32(&ts[4..8]), 0x8000_0000);
}

#[test]
fn ntp_timestamp_counts_from_epoch() {
    let ntp = NTP::new();
    let ts = ntp.timestamp();
    assert_eq!(ts.len(), 8);
    // The wall clock is past the NTP epoch, so the seconds field is
    // far from zero.
    assert!(be32(&ts[0..4]) > 0);
}

#[test]
fn ntp_timestamp_seconds_monotonic() {
    let ntp = NTP::new();
    let first = ntp.timestamp();
    let second = ntp.timestamp();
    assert_eq!(first.len(), 8);
    assert_eq!(second.len(), 8);
    assert!(be32(&second[0..4]) >= be32(&first[0..4]));
}

#[test]
fn endpoint_text_form() {
    assert_eq!(port_to_string(0), "0");
    assert_eq!(port_to_string(65535), "65535");
    assert_eq!(port_to_string(7000), "7000");
    assert_eq!(get_local_ip_port("192.168.1.5", 6002), "192.168.1.5:6002");
}

#[test]
fn ipv4_line_extraction() {
    assert_eq!(
        parse_ipv4_line("   IPv4 Address. . . . . . . . . . . : 192.168.1.42(Preferred)"),
        Some("192.168.1.42".to_string())
    );
    assert_eq!(
        parse_ipv4_line("   ipv4 address . . : 10.0.0.7"),
        Some("10.0.0.7".to_string())
    );
    assert_eq!(parse_ipv4_line("   Subnet Mask . . : 255.255.255.0"), None);
    assert_eq!(parse_ipv4_line("IPv4 Address with no colon"), None);
    // A marker the pattern does not follow is passed over.
    assert_eq!(
        parse_ipv4_line("x IPv4 Address foo IPv4 Address . : 10.0.0.1"),
        Some("10.0.0.1".to_string())
    );
}

#[test]
fn source_filter_matches_host_text() {
    assert!(source_allowed("192.168.1.5:6002", "192.168.1.5"));
    assert!(!source_allowed("192.168.1.5:6002", "192.168.1.7"));
    // A source that is only a text prefix of the host is rejected.
    assert!(!source_allowed("10.0.0.12:7000", "10.0.0.1"));
    assert!(!source_allowed("192.168.1.5:6002", "192.168.1"));
    assert!(source_allowed("10.0.0.12", "10.0.0.12"));
}
