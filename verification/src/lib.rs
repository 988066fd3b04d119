//! Core logic of a selective forwarding unit (SFU) for WebRTC media.
//!
//! The library holds the verified per-client media pipeline: the UDP packet
//! classifier, the per-client DTLS lifecycle and its incoming byte queue, the
//! SRTP keying-material split, the RTP header codec, the media-negotiation
//! tables, the client registry and group router, and the fan-out planner that
//! decides, for each decrypted packet, which peers receive a copy and with
//! which payload-type byte.
//!
//! The embedding I/O layer owns the UDP socket, the DTLS record engine and
//! the SRTP cipher; it identifies each remote socket address by a 64-bit key
//! and drives this library with plain values.

pub mod client;
pub mod fanout;
pub mod group;
pub mod media;
pub mod packet;
pub mod rtp;
pub mod sfu;
pub mod srtp_engine;
pub mod storage;
