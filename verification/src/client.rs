//! Per-client record and DTLS dispatch state machine.
//!
//! Every remote address owns one record holding its DTLS state, the queue
//! of DTLS datagrams awaiting the record engine, the one-driver flag, and
//! the peer's media-negotiation table. The state machine is:
//!
//! ```text
//! New  --first DTLS datagram--> New (queued, driver started)
//! New  --handshake success--> Connected
//! New  --handshake error / timeout--> Shutdown (delete)
//! Connected --post-handshake read of zero bytes--> Shutdown (delete)
//! Connected --DTLS datagram--> Connected (queued)
//! Shutdown is terminal; subsequent packets are dropped.
//! ```

use crate::media::MediaTable;
use crate::srtp_engine::SrtpContext;
use vstd::prelude::*;

verus! {

/// DTLS state of a client. A client is `Connected` exactly when both SRTP
/// sessions exist: the variant carries them, so neither can be present
/// without the other, nor absent in `Connected`.
#[derive(Debug)]
pub enum ClientSslState {
    /// No handshake has completed; possibly none has begun.
    New,
    /// Handshake done; both SRTP sessions derived and present.
    Connected { inbound: SrtpContext, outbound: SrtpContext },
    /// Terminal: the record is about to be deleted.
    Shutdown,
}

/// What the dispatcher should do with a DTLS datagram.
#[derive(Clone, Copy, PartialEq, Eq, Structural, Debug)]
pub enum DtlsAction {
    /// The datagram was queued and no driver was running: start the
    /// handshake driver now. The datagram is in the queue before the
    /// driver reads, so the first datagram reaches the engine as the
    /// ClientHello.
    Drive,
    /// The datagram was queued; the running driver or the connected
    /// engine will consume it.
    Queued,
    /// The client is shut down; the datagram was dropped.
    Dropped,
}

/// One client record.
#[derive(Debug)]
pub struct Client {
    /// Key of the remote socket address, assigned by the embedding layer.
    pub addr: u64,
    pub ssl_state: ClientSslState,
    /// Incoming byte queue: DTLS datagrams awaiting the record engine,
    /// oldest first.
    pub incoming: Vec<Vec<u8>>,
    /// Exactly one DTLS driver task may be active per client; true while
    /// one is.
    pub driving: bool,
    /// The peer's negotiated codec table, absent until signalling attaches
    /// one.
    pub media: Option<MediaTable>,
}

impl Client {
    /// Whether both SRTP sessions exist; by construction this is exactly
    /// the `Connected` state.
    pub open spec fn has_srtp_sessions(self) -> bool {
        self.ssl_state is Connected
    }

    /// The media table, when attached, is a bijection, and every SRTP
    /// context carries a whole master value.
    pub open spec fn wf(self) -> bool {
        &&& match self.media {
            Some(m) => m.wf(),
            None => true,
        }
        &&& match self.ssl_state {
            ClientSslState::Connected { inbound, outbound } => inbound.wf() && outbound.wf(),
            _ => true,
        }
    }

    /// A fresh record for a first datagram from an unknown address: no
    /// handshake yet, nothing queued, no driver, no media.
    pub fn new(addr: u64) -> (r: Client)
        ensures
            r.wf(),
            r.addr == addr,
            r.ssl_state is New,
            r.incoming@.len() == 0,
            !r.driving,
            r.media is None,
    {
        Client { addr, ssl_state: ClientSslState::New, incoming: Vec::new(), driving: false, media: None }
    }

    /// Whether no handshake has completed yet.
    pub fn is_new(&self) -> (r: bool)
        ensures
            r == (self.ssl_state is New),
    {
        match self.ssl_state {
            ClientSslState::New => true,
            _ => false,
        }
    }

    /// Whether the handshake completed and both SRTP sessions exist.
    pub fn is_connected(&self) -> (r: bool)
        ensures
            r == (self.ssl_state is Connected),
    {
        match self.ssl_state {
            ClientSslState::Connected { .. } => true,
            _ => false,
        }
    }

    /// Accept one DTLS datagram. Unless the client is shut down, the
    /// datagram is queued unconditionally — before any driver could read —
    /// and a driver is started only if none is running and no handshake
    /// has completed, so exactly one driver is ever active.
    pub fn push_dtls(&mut self, datagram: Vec<u8>) -> (r: DtlsAction)
        requires
            old(self).wf(),
        ensures
            final(self).wf(),
            final(self).addr == old(self).addr,
            final(self).media == old(self).media,
            final(self).ssl_state == old(self).ssl_state,
            old(self).ssl_state is Shutdown ==> r == DtlsAction::Dropped && *final(self) == *old(
                self,
            ),
            !(old(self).ssl_state is Shutdown) ==> final(self).incoming@ == old(
                self,
            ).incoming@.push(datagram),
            r == DtlsAction::Drive <==> old(self).ssl_state is New && !old(self).driving,
            r == DtlsAction::Dropped <==> old(self).ssl_state is Shutdown,
            r == DtlsAction::Drive ==> final(self).driving,
            r != DtlsAction::Drive ==> final(self).driving == old(self).driving,
    {
        match self.ssl_state {
            ClientSslState::Shutdown => DtlsAction::Dropped,
            ClientSslState::New => {
                self.incoming.push(datagram);
                if !self.driving {
                    self.driving = true;
                    DtlsAction::Drive
                } else {
                    DtlsAction::Queued
                }
            },
            ClientSslState::Connected { .. } => {
                self.incoming.push(datagram);
                DtlsAction::Queued
            },
        }
    }

    /// Hand the oldest queued DTLS datagram to the record engine.
    pub fn pop_incoming(&mut self) -> (r: Option<Vec<u8>>)
        ensures
            final(self).addr == old(self).addr,
            final(self).media == old(self).media,
            final(self).ssl_state == old(self).ssl_state,
            final(self).driving == old(self).driving,
            r is Some <==> old(self).incoming@.len() > 0,
            r matches Some(d) ==> d == old(self).incoming@[0] && final(self).incoming@ == old(
                self,
            ).incoming@.drop_first(),
            r is None ==> final(self).incoming@ == old(self).incoming@,
    {
        if self.incoming.len() == 0 {
            None
        } else {
            let d = self.incoming.remove(0);
            proof {
                assert(self.incoming@ =~= old(self).incoming@.drop_first());
            }
            Some(d)
        }
    }

    /// Attach the peer's negotiated media table.
    pub fn set_media(&mut self, media: MediaTable)
        requires
            old(self).wf(),
            media.wf(),
        ensures
            final(self).wf(),
            final(self).addr == old(self).addr,
            final(self).ssl_state == old(self).ssl_state,
            final(self).incoming@ == old(self).incoming@,
            final(self).driving == old(self).driving,
            final(self).media == Some(media),
    {
        self.media = Some(media);
    }

    /// Handshake success: construct both SRTP sessions in one step and
    /// enter `Connected`. Sessions are never replaced: only a `New` client
    /// can connect, and only `Shutdown` ever discards sessions.
    pub fn establish(&mut self, inbound: SrtpContext, outbound: SrtpContext)
        requires
            old(self).wf(),
            old(self).ssl_state is New,
            inbound.wf(),
            outbound.wf(),
        ensures
            final(self).wf(),
            final(self).addr == old(self).addr,
            final(self).media == old(self).media,
            final(self).incoming@ == old(self).incoming@,
            final(self).driving == old(self).driving,
            final(self).ssl_state == (ClientSslState::Connected { inbound, outbound }),
            final(self).has_srtp_sessions(),
    {
        self.ssl_state = ClientSslState::Connected { inbound, outbound };
    }

    /// Enter the terminal state, dropping both SRTP sessions.
    pub fn shutdown(&mut self)
        requires
            old(self).wf(),
        ensures
            final(self).wf(),
            final(self).addr == old(self).addr,
            final(self).media == old(self).media,
            final(self).incoming@ == old(self).incoming@,
            final(self).driving == old(self).driving,
            final(self).ssl_state is Shutdown,
    {
        self.ssl_state = ClientSslState::Shutdown;
    }
}

} // verus!
