//! SRTP context lifecycle.
//!
//! The cipher itself lives outside the library, in the embedding layer; the
//! library holds each session's derived keying material and decides what to
//! do with every cipher outcome. Key derivation follows the DTLS exporter
//! rules for the `AES_CM_128_HMAC_SHA1_80` profile: the exporter yields two
//! master values of key and salt each, the client half keying the inbound
//! session and the server half the outbound session.

use vstd::prelude::*;

verus! {

/// Master key length of the `AES_CM_128_HMAC_SHA1_80` profile.
pub const SRTP_KEY_LEN: usize = 16;

/// Master salt length of the `AES_CM_128_HMAC_SHA1_80` profile.
pub const SRTP_SALT_LEN: usize = 14;

/// One master value: key followed by salt.
pub const SRTP_MASTER_LEN: usize = 30;

/// The DTLS exporter output: two master values.
pub const SRTP_EXPORT_LEN: usize = 60;

/// The client half of exported keying material: client key then client
/// salt. The exporter lays the material out as client key, server key,
/// client salt, server salt.
pub open spec fn spec_client_half(m: Seq<u8>) -> Seq<u8> {
    m.subrange(0, 16) + m.subrange(32, 46)
}

/// The server half of exported keying material: server key then server
/// salt.
pub open spec fn spec_server_half(m: Seq<u8>) -> Seq<u8> {
    m.subrange(16, 32) + m.subrange(46, 60)
}

/// Keying material for one direction of a client's SRTP flows, as handed
/// to the cipher when the session is created.
#[derive(Clone, PartialEq, Eq, Debug)]
pub struct SrtpContext {
    pub master: Vec<u8>,
}

impl SrtpContext {
    /// A context always carries one whole master value.
    pub open spec fn wf(self) -> bool {
        self.master@.len() == SRTP_MASTER_LEN
    }
}

/// Split the DTLS exporter output into the two per-direction master
/// values. Material of any other length is rejected: the handshake did not
/// negotiate the expected profile.
pub fn extract_keying_material(material: &Vec<u8>) -> (r: Option<(SrtpContext, SrtpContext)>)
    ensures
        material@.len() == SRTP_EXPORT_LEN <==> r is Some,
        r matches Some(pair) ==> pair.0.master@ == spec_client_half(material@) && pair.1.master@
            == spec_server_half(material@) && pair.0.wf() && pair.1.wf(),
{
    if material.len() != SRTP_EXPORT_LEN {
        return None;
    }
    let client = concat_ranges(material, 0, 16, 32, 46);
    let server = concat_ranges(material, 16, 32, 46, 60);
    Some((SrtpContext { master: client }, SrtpContext { master: server }))
}

/// Concatenate two byte ranges of a buffer.
fn concat_ranges(buf: &Vec<u8>, a0: usize, a1: usize, b0: usize, b1: usize) -> (r: Vec<u8>)
    requires
        a0 <= a1 <= buf@.len(),
        b0 <= b1 <= buf@.len(),
    ensures
        r@ == buf@.subrange(a0 as int, a1 as int) + buf@.subrange(b0 as int, b1 as int),
{
    let mut out: Vec<u8> = Vec::new();
    let mut i: usize = a0;
    while i < a1
        invariant
            a0 <= i <= a1 <= buf@.len(),
            out@ == buf@.subrange(a0 as int, i as int),
        decreases a1 - i,
    {
        out.push(buf[i]);
        proof {
            assert(buf@.subrange(a0 as int, i + 1) =~= buf@.subrange(a0 as int, i as int).push(
                buf@[i as int],
            ));
        }
        i = i + 1;
    }
    let ghost first = out@;
    let mut j: usize = b0;
    while j < b1
        invariant
            b0 <= j <= b1 <= buf@.len(),
            out@ == first + buf@.subrange(b0 as int, j as int),
        decreases b1 - j,
    {
        out.push(buf[j]);
        proof {
            assert(buf@.subrange(b0 as int, j + 1) =~= buf@.subrange(b0 as int, j as int).push(
                buf@[j as int],
            ));
            assert(first + buf@.subrange(b0 as int, j as int).push(buf@[j as int]) =~= (first
                + buf@.subrange(b0 as int, j as int)).push(buf@[j as int]));
        }
        j = j + 1;
    }
    proof {
        assert(first + buf@.subrange(b0 as int, b0 as int) =~= first);
    }
    out
}

/// A per-packet SRTP failure, as reported by the cipher.
#[derive(Clone, Copy, PartialEq, Eq, Structural, Debug)]
pub enum SrtpFault {
    /// Authentication-tag check failed.
    Auth,
    /// The packet index was already seen: replay protection dropped it.
    Replay,
    /// The packet is not well-formed SRTP/SRTCP.
    BadFormat,
    /// The client has no session in this direction yet.
    NotConnected,
    /// The buffer cannot take the authentication tag.
    Overflow,
    /// Any other cipher failure.
    Other,
}

impl SrtpFault {
    /// Per-packet failures that drop the packet but keep the client:
    /// authentication, replay, format and not-yet-connected faults must
    /// not tear the session down or spam the logs.
    pub open spec fn spec_should_ignored(self) -> bool {
        self == SrtpFault::Auth || self == SrtpFault::Replay || self == SrtpFault::BadFormat
            || self == SrtpFault::NotConnected
    }

    /// Whether this failure is contained to the packet.
    pub fn should_ignored(&self) -> (r: bool)
        ensures
            r == self.spec_should_ignored(),
    {
        match self {
            SrtpFault::Auth => true,
            SrtpFault::Replay => true,
            SrtpFault::BadFormat => true,
            SrtpFault::NotConnected => true,
            SrtpFault::Overflow => false,
            SrtpFault::Other => false,
        }
    }
}

} // verus!
