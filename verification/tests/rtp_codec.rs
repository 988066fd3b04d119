use sfu_relay::rtp::RtpError;
use sfu_relay::rtp::RtpHeader;
use sfu_relay::rtp::calculate_payload;
use sfu_relay::rtp::rewrite_payload;

fn rtp_packet(byte1: u8) -> Vec<u8> {
    let mut p = vec![0u8; 12];
    p[0] = 0x80;
    p[1] = byte1;
    p.extend_from_slice(&[0xde, 0xad, 0xbe, 0xef]);
    p
}

#[test]
fn short_packet_is_parse_failure() {
    for len in 0..12usize {
        let buf = vec![0x80u8; len];
        assert_eq!(RtpHeader::from_buf(&buf), Err(RtpError::TooShort));
    }
}

#[test]
fn twelve_bytes_parse() {
    let mut buf = vec![0u8; 12];
    buf[1] = 0x80 | 111;
    let h = RtpHeader::from_buf(&buf).unwrap();
    assert!(h.marker);
    assert_eq!(h.payload, 111);

    buf[1] = 96;
    let h = RtpHeader::from_buf(&buf).unwrap();
    assert!(!h.marker);
    assert_eq!(h.payload, 96);
}

#[test]
fn calculate_payload_exact_values() {
    assert_eq!(calculate_payload(false, 111), 111);
    assert_eq!(calculate_payload(true, 111), 0x80 | 111);
    assert_eq!(calculate_payload(true, 0), 0x80);
    assert_eq!(calculate_payload(false, 0x7f), 0x7f);
    // an out-of-range payload type is masked to its low seven bits
    assert_eq!(calculate_payload(false, 0xff), 0x7f);
}

#[test]
fn rewrite_keeps_marker_and_sets_payload() {
    let mut p = rtp_packet(0x80 | 111);
    let original = p.clone();
    rewrite_payload(&mut p, true, 96);
    assert_eq!(p[1] >> 7, 1);
    assert_eq!(p[1] & 0x7f, 96);
    // every other byte is untouched
    for i in 0..p.len() {
        if i != 1 {
            assert_eq!(p[i], original[i]);
        }
    }

    let mut q = rtp_packet(111);
    rewrite_payload(&mut q, false, 9);
    assert_eq!(q[1] >> 7, 0);
    assert_eq!(q[1] & 0x7f, 9);
}
