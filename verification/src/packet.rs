//! Demultiplexing of datagrams arriving on the shared UDP socket.
//!
//! Every datagram is classified by its first byte (and, within the RTP
//! range, by the payload-type field of its second byte) into STUN, DTLS,
//! RTP, RTCP or unknown traffic.

use vstd::prelude::*;

verus! {

/// Classification of a datagram by its leading bytes.
#[derive(Clone, Copy, PartialEq, Eq, Structural, Debug)]
pub enum PacketKind {
    Stun,
    Dtls,
    Rtp,
    Rtcp,
    Unknown,
}

/// A datagram whose first byte lies in the RTP/RTCP range carries RTCP
/// exactly when the payload-type field of its second byte lies in `[64, 95]`.
pub open spec fn spec_is_rtcp(b1: u8) -> bool {
    64 <= (b1 & 0x7f) <= 95
}

/// Demultiplexing rule: STUN for first byte `0..=3`, DTLS for `20..=63`,
/// RTP or RTCP for `128..=191` (told apart by the second byte), everything
/// else unknown.
pub open spec fn spec_classify(b0: u8, b1: u8) -> PacketKind {
    if b0 <= 3 {
        PacketKind::Stun
    } else if 20 <= b0 <= 63 {
        PacketKind::Dtls
    } else if 128 <= b0 <= 191 {
        if spec_is_rtcp(b1) {
            PacketKind::Rtcp
        } else {
            PacketKind::Rtp
        }
    } else {
        PacketKind::Unknown
    }
}

/// Classification of a whole datagram: an empty datagram is unknown, and a
/// one-byte datagram in the RTP range cannot carry a payload type, so it
/// counts as RTP by default of evidence only when a second byte exists.
pub open spec fn spec_classify_datagram(data: Seq<u8>) -> PacketKind {
    if data.len() == 0 {
        PacketKind::Unknown
    } else if data.len() == 1 {
        spec_classify(data[0], 0)
    } else {
        spec_classify(data[0], data[1])
    }
}

/// RTCP discriminator on the second header byte.
pub fn is_rtcp_byte(b1: u8) -> (r: bool)
    ensures
        r == spec_is_rtcp(b1),
{
    let pt = b1 & 0x7f;
    64 <= pt && pt <= 95
}

/// Classify a datagram from its first two bytes.
pub fn classify(b0: u8, b1: u8) -> (r: PacketKind)
    ensures
        r == spec_classify(b0, b1),
{
    if b0 <= 3 {
        PacketKind::Stun
    } else if 20 <= b0 && b0 <= 63 {
        PacketKind::Dtls
    } else if 128 <= b0 && b0 <= 191 {
        if is_rtcp_byte(b1) {
            PacketKind::Rtcp
        } else {
            PacketKind::Rtp
        }
    } else {
        PacketKind::Unknown
    }
}

/// Classify a whole datagram.
pub fn classify_datagram(data: &Vec<u8>) -> (r: PacketKind)
    ensures
        r == spec_classify_datagram(data@),
{
    if data.len() == 0 {
        PacketKind::Unknown
    } else if data.len() == 1 {
        classify(data[0], 0)
    } else {
        classify(data[0], data[1])
    }
}

/// Every byte pair falls in exactly one class, and each class comes from
/// exactly the stated first-byte range.
pub proof fn lemma_classify_exclusive(b0: u8, b1: u8)
    ensures
        spec_classify(b0, b1) == PacketKind::Stun <==> b0 <= 3,
        spec_classify(b0, b1) == PacketKind::Dtls <==> 20 <= b0 <= 63,
        spec_classify(b0, b1) == PacketKind::Rtcp <==> 128 <= b0 <= 191 && spec_is_rtcp(b1),
        spec_classify(b0, b1) == PacketKind::Rtp <==> 128 <= b0 <= 191 && !spec_is_rtcp(b1),
        spec_classify(b0, b1) == PacketKind::Unknown <==> (4 <= b0 <= 19 || 64 <= b0 <= 127
            || 192 <= b0),
{
}

} // verus!
