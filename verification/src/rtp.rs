//! RTP fixed-header codec.
//!
//! Only as much of the header is parsed as the relay needs: the marker bit
//! and the payload type, both held in byte 1. On egress the payload-type
//! byte is rewritten to the destination's negotiated value, keeping the
//! marker bit.

use vstd::prelude::*;

verus! {

/// The RTP fixed header is 12 bytes; anything shorter cannot be RTP.
pub const RTP_HEADER_LEN: usize = 12;

/// Marker bit of an RTP packet: bit 7 of byte 1.
pub open spec fn spec_marker(b1: u8) -> bool {
    b1 & 0x80 != 0
}

/// Payload type of an RTP packet: the low 7 bits of byte 1.
pub open spec fn spec_payload_type(b1: u8) -> u8 {
    b1 & 0x7f
}

/// The rewritten byte 1 of an egress RTP packet: the marker bit kept, the
/// payload type replaced.
pub open spec fn spec_calculate_payload(marker: bool, payload: u8) -> u8 {
    (payload & 0x7f) | if marker {
        0x80u8
    } else {
        0u8
    }
}

/// Reason an RTP header cannot be recovered from a datagram.
#[derive(Clone, Copy, PartialEq, Eq, Structural, Debug)]
pub enum RtpError {
    /// The datagram is shorter than the fixed RTP header.
    TooShort,
}

/// The two header fields the relay reads.
#[derive(Clone, Copy, PartialEq, Eq, Structural, Debug)]
pub struct RtpHeader {
    pub marker: bool,
    pub payload: u8,
}

impl RtpHeader {
    /// A parsed header always carries a 7-bit payload type.
    pub open spec fn wf(self) -> bool {
        self.payload < 128
    }

    /// Parse the marker bit and payload type out of an RTP datagram.
    /// Fails exactly on datagrams shorter than the fixed header.
    pub fn from_buf(data: &Vec<u8>) -> (r: Result<RtpHeader, RtpError>)
        ensures
            data@.len() < RTP_HEADER_LEN <==> r == Result::<RtpHeader, RtpError>::Err(
                RtpError::TooShort,
            ),
            data@.len() >= RTP_HEADER_LEN ==> (r matches Ok(h) && h.marker == spec_marker(
                data@[1],
            ) && h.payload == spec_payload_type(data@[1]) && h.wf()),
    {
        if data.len() < RTP_HEADER_LEN {
            Err(RtpError::TooShort)
        } else {
            let b1 = data[1];
            let payload = b1 & 0x7f;
            assert(payload < 128) by (bit_vector)
                requires
                    payload == b1 & 0x7f,
            ;
            Ok(RtpHeader { marker: b1 & 0x80 != 0, payload })
        }
    }
}

/// Combine a marker bit and a payload type into the egress value of RTP
/// header byte 1.
pub fn calculate_payload(marker: bool, payload: u8) -> (r: u8)
    ensures
        r == spec_calculate_payload(marker, payload),
        spec_marker(r) == marker,
        spec_payload_type(r) == payload & 0x7f,
{
    let r: u8 = (payload & 0x7f) | if marker {
        0x80u8
    } else {
        0u8
    };
    proof {
        let m: u8 = if marker {
            0x80u8
        } else {
            0u8
        };
        assert(((payload & 0x7f) | m) & 0x80 == m && ((payload & 0x7f) | m) & 0x7f == payload
            & 0x7f) by (bit_vector)
            requires
                m == 0x80u8 || m == 0u8,
        ;
    }
    r
}

/// Rewrite byte 1 of an egress RTP packet to carry the destination's
/// payload type under the source's marker bit; every other byte is kept.
pub fn rewrite_payload(data: &mut Vec<u8>, marker: bool, payload: u8)
    requires
        old(data)@.len() >= 2,
    ensures
        final(data)@ == old(data)@.update(1, spec_calculate_payload(marker, payload)),
        final(data)@.len() == old(data)@.len(),
        spec_marker(final(data)@[1]) == marker,
        spec_payload_type(final(data)@[1]) == payload & 0x7f,
{
    let b = calculate_payload(marker, payload);
    data[1] = b;
}

/// The rewritten byte carries the marker in bit 7 and the destination
/// payload type's low 7 bits, whatever the inputs.
pub proof fn lemma_calculate_payload_bits(marker: bool, payload: u8)
    ensures
        spec_marker(spec_calculate_payload(marker, payload)) == marker,
        spec_payload_type(spec_calculate_payload(marker, payload)) == payload & 0x7f,
{
    let m: u8 = if marker {
        0x80u8
    } else {
        0u8
    };
    assert(((payload & 0x7f) | m) & 0x80 == m && ((payload & 0x7f) | m) & 0x7f == payload
        & 0x7f) by (bit_vector)
        requires
            m == 0x80u8 || m == 0u8,
    ;
}

/// The rewrite formula preserves the marker bit in bit 7 and places the
/// destination payload type in the low 7 bits, for every marker and every
/// 7-bit payload type.
pub proof fn lemma_rewrite_recovers_fields(marker: bool, payload: u8)
    requires
        payload < 128,
    ensures
        spec_calculate_payload(marker, payload) >> 7 == if marker {
            1u8
        } else {
            0u8
        },
        spec_calculate_payload(marker, payload) & 0x7f == payload,
{
    let m: u8 = if marker {
        0x80u8
    } else {
        0u8
    };
    assert(((payload & 0x7f) | m) >> 7 == (if m == 0x80u8 {
        1u8
    } else {
        0u8
    }) && ((payload & 0x7f) | m) & 0x7f == payload) by (bit_vector)
        requires
            (m == 0x80u8 || m == 0u8) && payload < 128,
    ;
}

} // verus!
