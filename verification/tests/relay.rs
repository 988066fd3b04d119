use sfu_relay::media::MediaTable;
use sfu_relay::sfu::Sfu;

fn exporter_material(seed: u8) -> Vec<u8> {
    (0u8..60).map(|b| b.wrapping_add(seed)).collect()
}

fn connect_peer(sfu: &mut Sfu, addr: u64, group: usize, codecs: &[(u8, &[u8])]) {
    sfu.handle_dtls(addr, vec![22, addr as u8]);
    assert!(sfu.on_handshake_success(addr, &exporter_material(addr as u8)));
    sfu.join_group(group, addr);
    let mut table = MediaTable::new();
    for (pt, name) in codecs {
        assert!(table.add(*pt, name.to_vec()));
    }
    sfu.attach_media(addr, table);
}

fn rtp_packet(marker: bool, pt: u8) -> Vec<u8> {
    let mut p = vec![0u8; 12];
    p[0] = 0x80;
    p[1] = if marker { 0x80 | pt } else { pt };
    p[11] = 0x2a;
    p.extend_from_slice(&[1, 2, 3, 4, 5]);
    p
}

#[test]
fn two_peer_relay() {
    let mut sfu = Sfu::new();
    connect_peer(&mut sfu, 1, 7, &[(111, b"opus")]);
    connect_peer(&mut sfu, 2, 7, &[(109, b"opus")]);

    let packet = rtp_packet(false, 111);
    let plan = sfu.plan_fanout(1, &packet, false);
    assert_eq!(plan.len(), 1);
    assert_eq!(plan[0].addr, 2);
    assert_eq!(plan[0].message[1] & 0x7f, 109);
    assert_eq!(plan[0].message[1] >> 7, 0);
    assert_eq!(plan[0].message.len(), packet.len());
    // nothing but the payload-type byte changes
    for i in 0..packet.len() {
        if i != 1 {
            assert_eq!(plan[0].message[i], packet[i]);
        }
    }
}

#[test]
fn payload_remap_keeps_marker() {
    let mut sfu = Sfu::new();
    connect_peer(&mut sfu, 1, 7, &[(111, b"opus")]);
    connect_peer(&mut sfu, 2, 7, &[(96, b"opus")]);

    let packet = rtp_packet(true, 111);
    let plan = sfu.plan_fanout(1, &packet, false);
    assert_eq!(plan.len(), 1);
    assert_eq!(plan[0].addr, 2);
    assert_eq!(plan[0].message[1], 0x80 | 96);
}

#[test]
fn missing_codec_skips_that_destination_only() {
    let mut sfu = Sfu::new();
    connect_peer(&mut sfu, 1, 7, &[(96, b"h264"), (111, b"opus")]);
    connect_peer(&mut sfu, 2, 7, &[(100, b"h264")]);
    connect_peer(&mut sfu, 3, 7, &[(109, b"opus")]);

    let packet = rtp_packet(false, 96);
    let plan = sfu.plan_fanout(1, &packet, false);
    // peer 3 does not list h264: zero egress to it, peer 2 still served
    assert_eq!(plan.len(), 1);
    assert_eq!(plan[0].addr, 2);
    assert_eq!(plan[0].message[1], 100);
}

#[test]
fn rtcp_fans_out_unchanged() {
    let mut sfu = Sfu::new();
    connect_peer(&mut sfu, 1, 7, &[(111, b"opus")]);
    connect_peer(&mut sfu, 2, 7, &[(96, b"opus")]);
    connect_peer(&mut sfu, 3, 7, &[(109, b"opus")]);

    // an RTCP receiver report; no payload-type translation occurs
    let report = vec![0x81, 201, 0, 1, 9, 9, 9, 9];
    let plan = sfu.plan_fanout(1, &report, true);
    assert_eq!(plan.len(), 2);
    assert_eq!(plan[0].addr, 2);
    assert_eq!(plan[0].message, report);
    assert_eq!(plan[1].addr, 3);
    assert_eq!(plan[1].message, report);
}

#[test]
fn fan_out_never_returns_to_the_source() {
    let mut sfu = Sfu::new();
    connect_peer(&mut sfu, 1, 7, &[(111, b"opus")]);
    connect_peer(&mut sfu, 2, 7, &[(111, b"opus")]);
    connect_peer(&mut sfu, 3, 7, &[(111, b"opus")]);

    let packet = rtp_packet(false, 111);
    for source in [1u64, 2, 3] {
        let plan = sfu.plan_fanout(source, &packet, false);
        assert_eq!(plan.len(), 2);
        for egress in &plan {
            assert_ne!(egress.addr, source);
        }
    }
}

#[test]
fn ungrouped_or_unparseable_packets_go_nowhere() {
    let mut sfu = Sfu::new();
    connect_peer(&mut sfu, 1, 7, &[(111, b"opus")]);
    connect_peer(&mut sfu, 2, 7, &[(111, b"opus")]);
    // a peer outside any group
    sfu.handle_dtls(9, vec![22]);
    assert!(sfu.on_handshake_success(9, &exporter_material(9)));
    assert_eq!(sfu.plan_fanout(9, &rtp_packet(false, 111), false).len(), 0);
    // a short packet is a parse failure and is dropped
    assert_eq!(sfu.plan_fanout(1, &vec![0x80, 111], false).len(), 0);
    // a payload type the source never negotiated is dropped
    assert_eq!(sfu.plan_fanout(1, &rtp_packet(false, 50), false).len(), 0);
}

#[test]
fn codec_names_match_across_cases() {
    let mut sfu = Sfu::new();
    // one peer offered the codec in upper case, the other in lower case
    connect_peer(&mut sfu, 1, 7, &[(111, b"OPUS")]);
    connect_peer(&mut sfu, 2, 7, &[(96, b"opus")]);
    let plan = sfu.plan_fanout(1, &rtp_packet(false, 111), false);
    assert_eq!(plan.len(), 1);
    assert_eq!(plan[0].addr, 2);
    assert_eq!(plan[0].message[1], 96);
}

#[test]
fn unconnected_members_receive_nothing() {
    let mut sfu = Sfu::new();
    connect_peer(&mut sfu, 1, 7, &[(111, b"opus")]);
    connect_peer(&mut sfu, 2, 7, &[(111, b"opus")]);
    // peer 3 joined the group but never finished its handshake
    sfu.handle_dtls(3, vec![22]);
    sfu.join_group(7, 3);
    let plan = sfu.plan_fanout(1, &rtp_packet(false, 111), false);
    assert_eq!(plan.len(), 1);
    assert_eq!(plan[0].addr, 2);
}
