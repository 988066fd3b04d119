//! Fan-out planning: one decrypt, N independent encrypts.
//!
//! After a packet from a source client is decrypted once, the plan names
//! every destination that is to receive a re-encrypted copy and the exact
//! bytes to encrypt for it: RTCP is forwarded unchanged to every connected
//! group member, RTP only to members whose media table lists the source's
//! codec, with header byte 1 rewritten to the destination's payload type
//! under the source's marker bit.

use crate::client::Client;
use crate::media::spec_get_id;
use crate::media::spec_get_name;
use crate::media::spec_lower;
use crate::media::lemma_get_name_indices;
use crate::rtp::RtpHeader;
use crate::rtp::spec_calculate_payload;
use crate::rtp::spec_marker;
use crate::rtp::spec_payload_type;
use crate::rtp::rewrite_payload;
use crate::rtp::lemma_calculate_payload_bits;
use crate::sfu::Sfu;
use crate::storage::spec_get_client;
use vstd::prelude::*;

verus! {

/// One planned egress datagram: the destination and the exact bytes its
/// SRTP outbound session is to protect.
#[derive(Debug)]
pub struct Egress {
    pub addr: u64,
    pub message: Vec<u8>,
}

/// The plan as pairs of destination and message bytes.
pub open spec fn spec_egress_views(s: Seq<Egress>) -> Seq<(u64, Seq<u8>)> {
    s.map_values(|e: Egress| (e.addr, e.message@))
}

/// RTCP fan-out: every registered, connected member receives the message
/// unchanged, in member order; no payload-type translation occurs.
pub open spec fn spec_fanout_rtcp(cs: Seq<Client>, members: Seq<u64>, msg: Seq<u8>) -> Seq<
    (u64, Seq<u8>),
>
    decreases members.len(),
{
    if members.len() == 0 {
        Seq::empty()
    } else {
        let rest = spec_fanout_rtcp(cs, members.drop_first(), msg);
        match spec_get_client(cs, members[0]) {
            Some(c) => if c.ssl_state is Connected {
                seq![(members[0], msg)] + rest
            } else {
                rest
            },
            None => rest,
        }
    }
}

/// RTP fan-out: every registered, connected member whose media table lists
/// the source's codec name receives the message with byte 1 rewritten to
/// its own payload type under the source's marker bit; members lacking the
/// codec are skipped.
pub open spec fn spec_fanout_rtp(
    cs: Seq<Client>,
    members: Seq<u64>,
    msg: Seq<u8>,
    marker: bool,
    name: Seq<u8>,
) -> Seq<(u64, Seq<u8>)>
    decreases members.len(),
{
    if members.len() == 0 {
        Seq::empty()
    } else {
        let rest = spec_fanout_rtp(cs, members.drop_first(), msg, marker, name);
        match spec_get_client(cs, members[0]) {
            Some(c) => if c.ssl_state is Connected {
                match c.media {
                    Some(m) => match spec_get_id(m.entries@, name) {
                        Some(pt) => seq![
                            (members[0], msg.update(1, spec_calculate_payload(marker, pt))),
                        ] + rest,
                        None => rest,
                    },
                    None => rest,
                }
            } else {
                rest
            },
            None => rest,
        }
    }
}

/// The source's side of an RTP packet: its marker bit and the codec name
/// its media table lists for the payload type. Absent when the packet is
/// shorter than an RTP header, the source is unknown, has no media table,
/// or did not negotiate the payload type.
pub open spec fn spec_source_codec(cs: Seq<Client>, addr: u64, msg: Seq<u8>) -> Option<
    (bool, Seq<u8>),
> {
    if msg.len() < 12 {
        None
    } else {
        match spec_get_client(cs, addr) {
            Some(c) => match c.media {
                Some(m) => match spec_get_name(m.entries@, spec_payload_type(msg[1])) {
                    Some(n) => Some((spec_marker(msg[1]), n)),
                    None => None,
                },
                None => None,
            },
            None => None,
        }
    }
}

/// Every packet an RTCP plan carries is the source packet unchanged: RTCP
/// is forwarded without payload-type translation.
pub proof fn lemma_fanout_rtcp_unchanged(cs: Seq<Client>, members: Seq<u64>, msg: Seq<u8>)
    ensures
        forall|k: int|
            0 <= k < spec_fanout_rtcp(cs, members, msg).len() ==> (#[trigger] spec_fanout_rtcp(
                cs,
                members,
                msg,
            )[k]).1 == msg,
    decreases members.len(),
{
    if members.len() > 0 {
        lemma_fanout_rtcp_unchanged(cs, members.drop_first(), msg);
        let rest = spec_fanout_rtcp(cs, members.drop_first(), msg);
        let plan = spec_fanout_rtcp(cs, members, msg);
        if plan.len() > rest.len() {
            assert forall|k: int| 0 <= k < plan.len() implies (#[trigger] plan[k]).1 == msg by {
                if k > 0 {
                    assert(plan[k] == rest[k - 1]);
                }
            }
        }
    }
}

/// Every packet an RTP plan carries keeps the source packet's length and
/// its marker bit; only the payload-type bits of byte 1 change.
pub proof fn lemma_fanout_rtp_keeps_marker(
    cs: Seq<Client>,
    members: Seq<u64>,
    msg: Seq<u8>,
    marker: bool,
    name: Seq<u8>,
)
    requires
        msg.len() >= 2,
    ensures
        forall|k: int|
            0 <= k < spec_fanout_rtp(cs, members, msg, marker, name).len() ==> (
            #[trigger] spec_fanout_rtp(cs, members, msg, marker, name)[k]).1.len() == msg.len()
                && spec_marker(spec_fanout_rtp(cs, members, msg, marker, name)[k].1[1]) == marker,
    decreases members.len(),
{
    if members.len() > 0 {
        lemma_fanout_rtp_keeps_marker(cs, members.drop_first(), msg, marker, name);
        let rest = spec_fanout_rtp(cs, members.drop_first(), msg, marker, name);
        let plan = spec_fanout_rtp(cs, members, msg, marker, name);
        if plan.len() > rest.len() {
            assert forall|k: int| 0 <= k < plan.len() implies (#[trigger] plan[k]).1.len()
                == msg.len() && spec_marker(plan[k].1[1]) == marker by {
                if k == 0 {
                    let pt0 = lemma_head_payload(cs, members, msg, marker, name);
                    lemma_calculate_payload_bits(marker, pt0);
                } else {
                    assert(plan[k] == rest[k - 1]);
                }
            }
        }
    }
}

/// When the head member of an RTP plan receives a packet, that packet is
/// the source packet with byte 1 rewritten for the head member's own
/// payload type; the returned value is that payload type.
proof fn lemma_head_payload(
    cs: Seq<Client>,
    members: Seq<u64>,
    msg: Seq<u8>,
    marker: bool,
    name: Seq<u8>,
) -> (pt: u8)
    requires
        members.len() > 0,
        spec_fanout_rtp(cs, members, msg, marker, name).len() > spec_fanout_rtp(
            cs,
            members.drop_first(),
            msg,
            marker,
            name,
        ).len(),
    ensures
        spec_fanout_rtp(cs, members, msg, marker, name)[0].1 == msg.update(
            1,
            spec_calculate_payload(marker, pt),
        ),
{
    let c = spec_get_client(cs, members[0]).unwrap();
    spec_get_id(c.media.unwrap().entries@, name).unwrap()
}

impl Sfu {
    /// Plan the fan-out of one decrypted packet from a source address.
    /// The plan is empty when the source is ungrouped; for RTP it is also
    /// empty when the packet has no whole header or the source's codec is
    /// unknown — such packets are dropped.
    pub fn plan_fanout(&self, addr: u64, message: &Vec<u8>, rtcp: bool) -> (r: Vec<Egress>)
        requires
            self.wf(),
        ensures
            crate::group::spec_group_of(self.groups.memberships@, addr) is None ==> r@.len() == 0,
            rtcp ==> (crate::group::spec_group_of(self.groups.memberships@, addr) matches Some(g)
                ==> spec_egress_views(r@) == spec_fanout_rtcp(
                self.client_storage.clients@,
                crate::group::spec_members(self.groups.memberships@, g, addr),
                message@,
            )),
            !rtcp ==> (spec_source_codec(self.client_storage.clients@, addr, message@) is None
                ==> r@.len() == 0),
            !rtcp ==> (crate::group::spec_group_of(self.groups.memberships@, addr) matches Some(g)
                ==> (spec_source_codec(self.client_storage.clients@, addr, message@) matches Some(
                sc,
            ) ==> spec_egress_views(r@) == spec_fanout_rtp(
                self.client_storage.clients@,
                crate::group::spec_members(self.groups.memberships@, g, addr),
                message@,
                sc.0,
                sc.1,
            ))),
            forall|k: int| 0 <= k < r@.len() ==> (#[trigger] r@[k]).addr != addr,
    {
        let members = match self.groups.get_addressess(addr) {
            Some(v) => v,
            None => {
                return Vec::new();
            },
        };
        let ghost cs = self.client_storage.clients@;
        let ghost msgv = message@;
        if rtcp {
            let mut out: Vec<Egress> = Vec::new();
            let n = members.len();
            let mut j: usize = 0;
            proof {
                assert(members@.skip(0) =~= members@);
                assert(spec_egress_views(out@) + spec_fanout_rtcp(cs, members@, msgv)
                    =~= spec_fanout_rtcp(cs, members@, msgv));
            }
            while j < n
                invariant
                    self.wf(),
                    n == members@.len(),
                    j <= n,
                    cs == self.client_storage.clients@,
                    msgv == message@,
                    spec_egress_views(out@) + spec_fanout_rtcp(cs, members@.skip(j as int), msgv)
                        == spec_fanout_rtcp(cs, members@, msgv),
                    forall|k: int| 0 <= k < members@.len() ==> members@[k] != addr,
                    forall|k: int| 0 <= k < out@.len() ==> (#[trigger] out@[k]).addr != addr,
                decreases n - j,
            {
                proof {
                    assert(members@.skip(j as int).drop_first() =~= members@.skip(j + 1));
                }
                let dest = members[j];
                match self.client_storage.find(dest) {
                    Some(i) => {
                        if self.client_storage.clients[i].is_connected() {
                            let ghost old_out = out@;
                            out.push(Egress { addr: dest, message: message.clone() });
                            proof {
                                assert(spec_egress_views(out@) =~= spec_egress_views(
                                    old_out,
                                ).push((dest, msgv)));
                                assert(spec_egress_views(old_out) + (seq![(dest, msgv)]
                                    + spec_fanout_rtcp(cs, members@.skip(j + 1), msgv))
                                    =~= spec_egress_views(out@) + spec_fanout_rtcp(
                                    cs,
                                    members@.skip(j + 1),
                                    msgv,
                                ));
                            }
                        }
                    },
                    None => {},
                }
                j = j + 1;
            }
            proof {
                assert(spec_fanout_rtcp(cs, members@.skip(n as int), msgv) =~= Seq::empty());
                assert(spec_egress_views(out@) + Seq::<(u64, Seq<u8>)>::empty()
                    =~= spec_egress_views(out@));
            }
            out
        } else {
            let header = match RtpHeader::from_buf(message) {
                Ok(h) => h,
                Err(_) => {
                    return Vec::new();
                },
            };
            let src_i = match self.client_storage.find(addr) {
                Some(i) => i,
                None => {
                    return Vec::new();
                },
            };
            let name = match &self.client_storage.clients[src_i].media {
                Some(m) => {
                    match m.get_name(header.payload) {
                        Some(n) => n,
                        None => {
                            return Vec::new();
                        },
                    }
                },
                None => {
                    return Vec::new();
                },
            };
            proof {
                let src = self.client_storage.clients@[src_i as int];
                lemma_get_name_indices(src.media.unwrap().entries@, header.payload);
                let w = choose|w: int|
                    0 <= w < src.media.unwrap().entries@.len() && (
                    #[trigger] src.media.unwrap().entries@[w]).payload == header.payload
                        && src.media.unwrap().entries@[w].name@ == name@;
                assert(spec_lower(name@) == name@);
                assert(spec_source_codec(cs, addr, msgv) == Some((header.marker, name@)));
            }
            let mut out: Vec<Egress> = Vec::new();
            let n = members.len();
            let mut j: usize = 0;
            proof {
                assert(members@.skip(0) =~= members@);
                assert(spec_egress_views(out@) + spec_fanout_rtp(cs, members@, msgv, header.marker, name@)
                    =~= spec_fanout_rtp(cs, members@, msgv, header.marker, name@));
            }
            while j < n
                invariant
                    self.wf(),
                    n == members@.len(),
                    j <= n,
                    cs == self.client_storage.clients@,
                    msgv == message@,
                    msgv.len() >= 12,
                    spec_lower(name@) == name@,
                    spec_egress_views(out@) + spec_fanout_rtp(
                        cs,
                        members@.skip(j as int),
                        msgv,
                        header.marker,
                        name@,
                    ) == spec_fanout_rtp(cs, members@, msgv, header.marker, name@),
                    forall|k: int| 0 <= k < members@.len() ==> members@[k] != addr,
                    forall|k: int| 0 <= k < out@.len() ==> (#[trigger] out@[k]).addr != addr,
                decreases n - j,
            {
                proof {
                    assert(members@.skip(j as int).drop_first() =~= members@.skip(j + 1));
                }
                let dest = members[j];
                match self.client_storage.find(dest) {
                    Some(i) => {
                        if self.client_storage.clients[i].is_connected() {
                            match &self.client_storage.clients[i].media {
                                Some(m) => {
                                    match m.get_id(&name) {
                                        Some(pt) => {
                                            let mut copy = message.clone();
                                            rewrite_payload(&mut copy, header.marker, pt);
                                            let ghost old_out = out@;
                                            out.push(Egress { addr: dest, message: copy });
                                            proof {
                                                let b = spec_calculate_payload(header.marker, pt);
                                                assert(spec_egress_views(out@)
                                                    =~= spec_egress_views(old_out).push(
                                                    (dest, msgv.update(1, b)),
                                                ));
                                                assert(spec_egress_views(old_out) + (seq![
                                                    (dest, msgv.update(1, b)),
                                                ] + spec_fanout_rtp(
                                                    cs,
                                                    members@.skip(j + 1),
                                                    msgv,
                                                    header.marker,
                                                    name@,
                                                )) =~= spec_egress_views(out@) + spec_fanout_rtp(
                                                    cs,
                                                    members@.skip(j + 1),
                                                    msgv,
                                                    header.marker,
                                                    name@,
                                                ));
                                            }
                                        },
                                        None => {},
                                    }
                                },
                                None => {},
                            }
                        }
                    },
                    None => {},
                }
                j = j + 1;
            }
            proof {
                assert(spec_fanout_rtp(cs, members@.skip(n as int), msgv, header.marker, name@)
                    =~= Seq::empty());
                assert(spec_egress_views(out@) + Seq::<(u64, Seq<u8>)>::empty()
                    =~= spec_egress_views(out@));
            }
            out
        }
    }
}

} // verus!
