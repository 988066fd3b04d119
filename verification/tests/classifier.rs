use sfu_relay::packet::PacketKind;
use sfu_relay::packet::classify;
use sfu_relay::packet::classify_datagram;
use sfu_relay::packet::is_rtcp_byte;

#[test]
fn classify_covers_every_byte_exclusively() {
    for b0 in 0..=255u8 {
        for b1 in [0u8, 72, 95, 96, 200] {
            let kind = classify(b0, b1);
            let expected = if b0 <= 3 {
                PacketKind::Stun
            } else if (20..=63).contains(&b0) {
                PacketKind::Dtls
            } else if (128..=191).contains(&b0) {
                if (64..=95).contains(&(b1 & 0x7f)) {
                    PacketKind::Rtcp
                } else {
                    PacketKind::Rtp
                }
            } else {
                PacketKind::Unknown
            };
            assert_eq!(kind, expected);
        }
    }
}

#[test]
fn classify_range_boundaries() {
    assert_eq!(classify(0, 0), PacketKind::Stun);
    assert_eq!(classify(3, 0), PacketKind::Stun);
    assert_eq!(classify(4, 0), PacketKind::Unknown);
    assert_eq!(classify(19, 0), PacketKind::Unknown);
    assert_eq!(classify(20, 0), PacketKind::Dtls);
    assert_eq!(classify(63, 0), PacketKind::Dtls);
    assert_eq!(classify(64, 0), PacketKind::Unknown);
    assert_eq!(classify(127, 0), PacketKind::Unknown);
    assert_eq!(classify(128, 0), PacketKind::Rtp);
    assert_eq!(classify(191, 0), PacketKind::Rtp);
    assert_eq!(classify(192, 0), PacketKind::Unknown);
    assert_eq!(classify(255, 0), PacketKind::Unknown);
}

#[test]
fn rtcp_discriminator_boundaries() {
    assert!(!is_rtcp_byte(63));
    assert!(is_rtcp_byte(64));
    assert!(is_rtcp_byte(95));
    assert!(!is_rtcp_byte(96));
    // the marker bit is masked off before the comparison
    assert!(is_rtcp_byte(0x80 | 72));
    assert!(!is_rtcp_byte(0x80 | 111));
}

#[test]
fn receiver_report_is_rtcp() {
    // RTCP receiver report: version 2, packet type 201 -> byte1 & 0x7f = 73
    assert_eq!(classify(0x81, 201), PacketKind::Rtcp);
    // Opus RTP packet with payload type 111
    assert_eq!(classify(0x80, 111), PacketKind::Rtp);
}

#[test]
fn classify_short_datagrams() {
    assert_eq!(classify_datagram(&vec![]), PacketKind::Unknown);
    assert_eq!(classify_datagram(&vec![2]), PacketKind::Stun);
    assert_eq!(classify_datagram(&vec![22]), PacketKind::Dtls);
    assert_eq!(classify_datagram(&vec![0x80, 111]), PacketKind::Rtp);
    assert_eq!(classify_datagram(&vec![0x81, 201]), PacketKind::Rtcp);
}
