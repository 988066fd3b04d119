//! The dispatcher: client registry and group router under one roof.
//!
//! One instance owns all per-client state. The embedding layer feeds it
//! plain events — a DTLS datagram arrived, a handshake finished, a
//! signalling message came in — and performs the I/O and cipher work the
//! returned decisions call for.

use crate::client::Client;
use crate::client::ClientSslState;
use crate::client::DtlsAction;
use crate::group::Group;
use crate::group::spec_is_member;
use crate::media::MediaTable;
use crate::srtp_engine::extract_keying_material;
use crate::srtp_engine::spec_client_half;
use crate::srtp_engine::spec_server_half;
use crate::storage::ClientStorage;
use crate::storage::lemma_get_client_update;
use crate::storage::spec_contains;
use crate::storage::spec_get_client;
use vstd::prelude::*;

verus! {

/// Result of the bounded post-handshake read on a connected client.
#[derive(Clone, Copy, PartialEq, Eq, Structural, Debug)]
pub enum ReadOutcome {
    /// The DTLS engine returned this many bytes; zero means the peer shut
    /// the connection down in an orderly way.
    Bytes(usize),
    /// The read deadline expired: benign, nothing changes.
    TimedOut,
}

/// Registry and router of the whole unit.
#[derive(Debug)]
pub struct Sfu {
    pub client_storage: ClientStorage,
    pub groups: Group,
}

impl Sfu {
    /// Registry and router well-formed, and every grouped address
    /// registered: a join for an unknown address is ignored and deletion
    /// prunes the groups.
    pub open spec fn wf(self) -> bool {
        &&& self.client_storage.wf()
        &&& self.groups.wf()
        &&& forall|k: int|
            0 <= k < self.groups.memberships@.len() ==> spec_contains(
                self.client_storage.clients@,
                (#[trigger] self.groups.memberships@[k]).1,
            )
    }

    /// The record of an address.
    pub open spec fn spec_client_of(self, addr: u64) -> Option<Client> {
        spec_get_client(self.client_storage.clients@, addr)
    }

    /// An empty unit.
    pub fn new() -> (r: Sfu)
        ensures
            r.wf(),
            r.client_storage.clients@.len() == 0,
            r.groups.memberships@.len() == 0,
    {
        Sfu { client_storage: ClientStorage::new(), groups: Group::new() }
    }

    /// Accept a DTLS datagram from an address, creating a `New` record on
    /// first contact. The datagram is queued before any driver starts, and
    /// a driver starts only when none is active, so two simultaneous
    /// datagrams from one new address drive exactly one handshake.
    pub fn handle_dtls(&mut self, addr: u64, datagram: Vec<u8>) -> (r: DtlsAction)
        requires
            old(self).wf(),
        ensures
            final(self).wf(),
            final(self).groups.memberships@ == old(self).groups.memberships@,
            forall|a: u64|
                a != addr ==> #[trigger] final(self).spec_client_of(a) == old(self).spec_client_of(
                    a,
                ),
            final(self).spec_client_of(addr) is Some,
            r == DtlsAction::Drive <==> (old(self).spec_client_of(addr) is None || (old(
                self,
            ).spec_client_of(addr).unwrap().ssl_state is New && !old(self).spec_client_of(
                addr,
            ).unwrap().driving)),
            r == DtlsAction::Dropped <==> (old(self).spec_client_of(addr) is Some && old(
                self,
            ).spec_client_of(addr).unwrap().ssl_state is Shutdown),
            old(self).spec_client_of(addr) is None ==> {
                &&& r == DtlsAction::Drive
                &&& final(self).spec_client_of(addr).unwrap().ssl_state is New
                &&& final(self).spec_client_of(addr).unwrap().incoming@ == seq![datagram]
                &&& final(self).spec_client_of(addr).unwrap().driving
                &&& final(self).spec_client_of(addr).unwrap().media is None
            },
            old(self).spec_client_of(addr) matches Some(c) ==> (!(c.ssl_state is Shutdown) ==> {
                &&& final(self).spec_client_of(addr).unwrap().incoming@ == c.incoming@.push(
                    datagram,
                )
                &&& final(self).spec_client_of(addr).unwrap().ssl_state == c.ssl_state
                &&& final(self).spec_client_of(addr).unwrap().media == c.media
                &&& (r == DtlsAction::Drive ==> final(self).spec_client_of(addr).unwrap().driving)
            }),
            old(self).spec_client_of(addr) matches Some(c) ==> (c.ssl_state is Shutdown ==> r
                == DtlsAction::Dropped && final(self).spec_client_of(addr) == Some(c)),
    {
        let ghost old_s = self.client_storage.clients@;
        let i = self.client_storage.entry(addr);
        let ghost mid = self.client_storage.clients@;
        proof {
            if !spec_contains(old_s, addr) {
                assert(mid[i as int] == mid.last());
            }
        }
        let c = &mut self.client_storage.clients[i];
        let r = c.push_dtls(datagram);
        proof {
            let t = self.client_storage.clients@;
            lemma_get_client_update(mid, i as int, t[i as int]);
            assert(t == mid.update(i as int, t[i as int]));
            assert forall|k: int| 0 <= k < t.len() implies (#[trigger] t[k]).wf() by {
                if k != i as int {
                    assert(t[k] == mid[k]);
                }
            }
            assert forall|k: int|
                0 <= k < self.groups.memberships@.len() implies spec_contains(
                t,
                (#[trigger] self.groups.memberships@[k]).1,
            ) by {
                let m = self.groups.memberships@[k].1;
                if m != addr {
                    assert(spec_get_client(t, m) == spec_get_client(mid, m));
                    assert(spec_get_client(mid, m) == spec_get_client(old_s, m));
                }
            }
            if !spec_contains(old_s, addr) {
                assert(spec_get_client(t, addr).unwrap().incoming@ =~= seq![datagram]);
            }
        }
        r
    }

    /// Hand the oldest queued DTLS datagram of an address to its record
    /// engine.
    pub fn pop_incoming(&mut self, addr: u64) -> (r: Option<Vec<u8>>)
        requires
            old(self).wf(),
        ensures
            final(self).wf(),
            final(self).groups.memberships@ == old(self).groups.memberships@,
            forall|a: u64|
                a != addr ==> #[trigger] final(self).spec_client_of(a) == old(self).spec_client_of(
                    a,
                ),
            old(self).spec_client_of(addr) is None ==> r is None && final(self).spec_client_of(
                addr,
            ) is None,
            old(self).spec_client_of(addr) matches Some(c) ==> {
                &&& (r is Some <==> c.incoming@.len() > 0)
                &&& (r matches Some(d) ==> d == c.incoming@[0] && final(self).spec_client_of(
                    addr,
                ).unwrap().incoming@ == c.incoming@.drop_first())
                &&& final(self).spec_client_of(addr).unwrap().ssl_state == c.ssl_state
                &&& final(self).spec_client_of(addr).unwrap().media == c.media
                &&& final(self).spec_client_of(addr).unwrap().driving == c.driving
            },
    {
        let ghost old_s = self.client_storage.clients@;
        let i = match self.client_storage.find(addr) {
            Some(i) => i,
            None => {
                return None;
            },
        };
        let c = &mut self.client_storage.clients[i];
        let r = c.pop_incoming();
        proof {
            let t = self.client_storage.clients@;
            lemma_get_client_update(old_s, i as int, t[i as int]);
            assert forall|k: int| 0 <= k < t.len() implies (#[trigger] t[k]).wf() by {
                if k != i as int {
                    assert(t[k] == old_s[k]);
                } else {
                    assert(old_s[k].wf());
                }
            }
            assert forall|k: int|
                0 <= k < self.groups.memberships@.len() implies spec_contains(
                t,
                (#[trigger] self.groups.memberships@[k]).1,
            ) by {
                let m = self.groups.memberships@[k].1;
                if m != addr {
                    assert(spec_get_client(t, m) == spec_get_client(old_s, m));
                }
            }
        }
        r
    }

    /// Handshake success on a `New` client: derive both SRTP sessions from
    /// the DTLS exporter output and enter `Connected` in one step — never
    /// one session without the other. Returns false, changing nothing,
    /// when the address is unknown, the client is not `New`, or the
    /// material has the wrong length; the caller then treats the handshake
    /// as failed.
    pub fn on_handshake_success(&mut self, addr: u64, material: &Vec<u8>) -> (r: bool)
        requires
            old(self).wf(),
        ensures
            final(self).wf(),
            final(self).groups.memberships@ == old(self).groups.memberships@,
            forall|a: u64|
                a != addr ==> #[trigger] final(self).spec_client_of(a) == old(self).spec_client_of(
                    a,
                ),
            r <==> (old(self).spec_client_of(addr) matches Some(c) && c.ssl_state is New
                && material@.len() == 60),
            !r ==> *final(self) == *old(self),
            r ==> {
                &&& final(self).spec_client_of(addr) is Some
                &&& final(self).spec_client_of(addr).unwrap().has_srtp_sessions()
                &&& final(self).spec_client_of(addr).unwrap().ssl_state matches ClientSslState::Connected { inbound, outbound }
                    && inbound.master@ == spec_client_half(material@) && outbound.master@
                    == spec_server_half(material@)
                &&& final(self).spec_client_of(addr).unwrap().media == old(self).spec_client_of(
                    addr,
                ).unwrap().media
                &&& final(self).spec_client_of(addr).unwrap().incoming@ == old(
                    self,
                ).spec_client_of(addr).unwrap().incoming@
            },
    {
        let ghost old_s = self.client_storage.clients@;
        let i = match self.client_storage.find(addr) {
            Some(i) => i,
            None => {
                return false;
            },
        };
        if !self.client_storage.clients[i].is_new() {
            return false;
        }
        let (inbound, outbound) = match extract_keying_material(material) {
            Some(pair) => pair,
            None => {
                return false;
            },
        };
        let c = &mut self.client_storage.clients[i];
        c.establish(inbound, outbound);
        proof {
            let t = self.client_storage.clients@;
            lemma_get_client_update(old_s, i as int, t[i as int]);
            assert forall|k: int| 0 <= k < t.len() implies (#[trigger] t[k]).wf() by {
                if k != i as int {
                    assert(t[k] == old_s[k]);
                }
            }
            assert forall|k: int|
                0 <= k < self.groups.memberships@.len() implies spec_contains(
                t,
                (#[trigger] self.groups.memberships@[k]).1,
            ) by {
                let m = self.groups.memberships@[k].1;
                if m != addr {
                    assert(spec_get_client(t, m) == spec_get_client(old_s, m));
                }
            }
        }
        true
    }

    /// Delete a client: remove its record and take it out of every group.
    /// Idempotent; true exactly when a record existed. Handshake failure
    /// or timeout, an orderly peer shutdown and explicit teardown all end
    /// here.
    pub fn delete(&mut self, addr: u64) -> (r: bool)
        requires
            old(self).wf(),
        ensures
            final(self).wf(),
            r == (old(self).spec_client_of(addr) is Some),
            final(self).spec_client_of(addr) is None,
            !spec_is_member(final(self).groups.memberships@, addr),
            forall|a: u64|
                a != addr ==> #[trigger] final(self).spec_client_of(a) == old(self).spec_client_of(
                    a,
                ),
            final(self).groups.memberships@ == crate::group::spec_remove_addr(
                old(self).groups.memberships@,
                addr,
            ),
    {
        let ghost old_s = self.client_storage.clients@;
        let ghost old_m = self.groups.memberships@;
        let existed = self.client_storage.remove(addr);
        self.groups.remove_client(addr);
        proof {
            crate::group::lemma_remove_addr_survivors(old_m, addr);
            let t = self.client_storage.clients@;
            assert forall|k: int|
                0 <= k < self.groups.memberships@.len() implies spec_contains(
                t,
                (#[trigger] self.groups.memberships@[k]).1,
            ) by {
                let m = self.groups.memberships@[k].1;
                assert(self.groups.memberships@[k] == crate::group::spec_remove_addr(
                    old_m,
                    addr,
                )[k]);
                assert(m != addr);
                assert(spec_is_member(old_m, m));
                crate::group::lemma_group_of_indices(old_m, m);
                let g = crate::group::spec_group_of(old_m, m).unwrap();
                let j = choose|j: int| 0 <= j < old_m.len() && #[trigger] old_m[j] == (g, m);
                assert((old(self).groups.memberships@[j]).1 == m);
                assert(spec_contains(old_s, m));
                assert(spec_get_client(t, m) == spec_get_client(old_s, m));
            }
        }
        existed
    }

    /// Handshake failure or its ten-second deadline passing: the client
    /// leaves through the terminal state — its record is deleted and its
    /// group membership pruned, so the next datagram from the same address
    /// begins a fresh record.
    pub fn on_handshake_failure(&mut self, addr: u64) -> (r: bool)
        requires
            old(self).wf(),
        ensures
            final(self).wf(),
            r == (old(self).spec_client_of(addr) is Some),
            final(self).spec_client_of(addr) is None,
            !spec_is_member(final(self).groups.memberships@, addr),
            forall|a: u64|
                a != addr ==> #[trigger] final(self).spec_client_of(a) == old(self).spec_client_of(
                    a,
                ),
    {
        self.delete(addr)
    }

    /// React to the bounded post-handshake DTLS read: a read of zero
    /// bytes is an orderly peer shutdown and deletes the client; anything
    /// else — data or a deadline expiry — changes nothing.
    pub fn on_post_handshake_read(&mut self, addr: u64, outcome: ReadOutcome) -> (deleted: bool)
        requires
            old(self).wf(),
        ensures
            final(self).wf(),
            outcome == ReadOutcome::Bytes(0usize) ==> deleted == old(self).spec_client_of(
                addr,
            ) is Some && final(self).spec_client_of(addr) is None && !spec_is_member(
                final(self).groups.memberships@,
                addr,
            ),
            outcome != ReadOutcome::Bytes(0usize) ==> !deleted && *final(self) == *old(self),
    {
        match outcome {
            ReadOutcome::Bytes(n) => {
                if n == 0 {
                    self.delete(addr)
                } else {
                    false
                }
            },
            ReadOutcome::TimedOut => false,
        }
    }

    /// Attach a negotiated media table to a client; a message for an
    /// unknown address is silently ignored.
    pub fn attach_media(&mut self, addr: u64, media: MediaTable)
        requires
            old(self).wf(),
            media.wf(),
        ensures
            final(self).wf(),
            final(self).groups.memberships@ == old(self).groups.memberships@,
            forall|a: u64|
                a != addr ==> #[trigger] final(self).spec_client_of(a) == old(self).spec_client_of(
                    a,
                ),
            old(self).spec_client_of(addr) is None ==> *final(self) == *old(self),
            old(self).spec_client_of(addr) matches Some(c) ==> {
                &&& final(self).spec_client_of(addr).unwrap().media == Some(media)
                &&& final(self).spec_client_of(addr).unwrap().ssl_state == c.ssl_state
                &&& final(self).spec_client_of(addr).unwrap().incoming@ == c.incoming@
            },
    {
        let ghost old_s = self.client_storage.clients@;
        let i = match self.client_storage.find(addr) {
            Some(i) => i,
            None => {
                return;
            },
        };
        let c = &mut self.client_storage.clients[i];
        c.set_media(media);
        proof {
            let t = self.client_storage.clients@;
            lemma_get_client_update(old_s, i as int, t[i as int]);
            assert forall|k: int| 0 <= k < t.len() implies (#[trigger] t[k]).wf() by {
                if k != i as int {
                    assert(t[k] == old_s[k]);
                }
            }
            assert forall|k: int|
                0 <= k < self.groups.memberships@.len() implies spec_contains(
                t,
                (#[trigger] self.groups.memberships@[k]).1,
            ) by {
                let m = self.groups.memberships@[k].1;
                if m != addr {
                    assert(spec_get_client(t, m) == spec_get_client(old_s, m));
                }
            }
        }
    }

    /// Join a client to a group; a message for an unknown address is
    /// silently ignored, and a client already in a group keeps its group.
    pub fn join_group(&mut self, group_id: usize, addr: u64)
        requires
            old(self).wf(),
        ensures
            final(self).wf(),
            final(self).client_storage.clients@ == old(self).client_storage.clients@,
            old(self).spec_client_of(addr) is None ==> final(self).groups.memberships@ == old(
                self,
            ).groups.memberships@,
            old(self).spec_client_of(addr) is Some ==> spec_is_member(
                final(self).groups.memberships@,
                addr,
            ),
            old(self).spec_client_of(addr) is Some && !spec_is_member(
                old(self).groups.memberships@,
                addr,
            ) ==> final(self).groups.memberships@ == old(self).groups.memberships@.push(
                (group_id, addr),
            ),
            spec_is_member(old(self).groups.memberships@, addr) ==> final(self).groups.memberships@
                == old(self).groups.memberships@,
    {
        if self.client_storage.contains_key(addr) {
            let ghost old_m = self.groups.memberships@;
            self.groups.insert_client(group_id, addr);
            proof {
                assert forall|k: int|
                    0 <= k < self.groups.memberships@.len() implies spec_contains(
                    self.client_storage.clients@,
                    (#[trigger] self.groups.memberships@[k]).1,
                ) by {
                    if k < old_m.len() {
                        assert(self.groups.memberships@[k] == old_m[k]);
                    } else {
                        assert(self.groups.memberships@[k].1 == addr);
                    }
                }
            }
        }
    }

    /// Whether an ingress RTP/RTCP packet from this address should be
    /// handed to the SRTP engine: only a `Connected` client decrypts;
    /// packets from unknown, `New` or `Shutdown` clients are dropped.
    pub fn should_unprotect(&self, addr: u64) -> (r: bool)
        ensures
            r == (self.spec_client_of(addr) matches Some(c) && c.ssl_state is Connected),
    {
        match self.client_storage.find(addr) {
            Some(i) => self.client_storage.clients[i].is_connected(),
            None => false,
        }
    }
}

} // verus!
