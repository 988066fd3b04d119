//! Group membership and fan-out routing.
//!
//! A group is a small unsigned integer naming a conference; the router maps
//! every member address to its group and yields, for a source address, the
//! set of other members of the same group. A client belongs to at most one
//! group, and membership is append-only within a session apart from client
//! deletion.

use vstd::prelude::*;

verus! {

/// A join request: group id and member address.
#[derive(Clone, Copy, PartialEq, Eq, Structural, Debug)]
pub struct GroupId(pub usize, pub u64);

/// Group of an address: the first membership pair holding it.
pub open spec fn spec_group_of(s: Seq<(usize, u64)>, addr: u64) -> Option<usize>
    decreases s.len(),
{
    if s.len() == 0 {
        None
    } else if s[0].1 == addr {
        Some(s[0].0)
    } else {
        spec_group_of(s.drop_first(), addr)
    }
}

/// Whether an address belongs to any group.
pub open spec fn spec_is_member(s: Seq<(usize, u64)>, addr: u64) -> bool {
    spec_group_of(s, addr) is Some
}

/// Addresses of a group in listing order, one address left out.
pub open spec fn spec_members(s: Seq<(usize, u64)>, gid: usize, excl: u64) -> Seq<u64>
    decreases s.len(),
{
    if s.len() == 0 {
        Seq::empty()
    } else if s[0].0 == gid && s[0].1 != excl {
        seq![s[0].1] + spec_members(s.drop_first(), gid, excl)
    } else {
        spec_members(s.drop_first(), gid, excl)
    }
}

/// The membership list without one address.
pub open spec fn spec_remove_addr(s: Seq<(usize, u64)>, addr: u64) -> Seq<(usize, u64)>
    decreases s.len(),
{
    if s.len() == 0 {
        Seq::empty()
    } else if s[0].1 == addr {
        spec_remove_addr(s.drop_first(), addr)
    } else {
        seq![s[0]] + spec_remove_addr(s.drop_first(), addr)
    }
}

/// The group router: `(group id, member address)` pairs, each address at
/// most once.
#[derive(Debug)]
pub struct Group {
    pub memberships: Vec<(usize, u64)>,
}

impl Group {
    /// Each address appears in at most one pair.
    pub open spec fn wf(self) -> bool {
        forall|i: int, j: int|
            0 <= i < j < self.memberships@.len() ==> (#[trigger] self.memberships@[i]).1 != (
            #[trigger] self.memberships@[j]).1
    }

    /// An empty router.
    pub fn new() -> (r: Group)
        ensures
            r.wf(),
            r.memberships@.len() == 0,
    {
        Group { memberships: Vec::new() }
    }

    /// Group of an address, if it joined one.
    pub fn group_of(&self, addr: u64) -> (r: Option<usize>)
        ensures
            r == spec_group_of(self.memberships@, addr),
    {
        proof {
            assert(self.memberships@.skip(0) =~= self.memberships@);
        }
        let n = self.memberships.len();
        let mut i: usize = 0;
        while i < n
            invariant
                n == self.memberships@.len(),
                i <= n,
                spec_group_of(self.memberships@, addr) == spec_group_of(
                    self.memberships@.skip(i as int),
                    addr,
                ),
            decreases n - i,
        {
            proof {
                assert(self.memberships@.skip(i as int).drop_first() =~= self.memberships@.skip(
                    i + 1,
                ));
            }
            if self.memberships[i].1 == addr {
                return Some(self.memberships[i].0);
            }
            i = i + 1;
        }
        None
    }

    /// Join an address to a group. An address that already belongs to a
    /// group keeps it: a client belongs to at most one group.
    pub fn insert_client(&mut self, group_id: usize, addr: u64)
        requires
            old(self).wf(),
        ensures
            final(self).wf(),
            spec_is_member(old(self).memberships@, addr) ==> final(self).memberships@ == old(
                self,
            ).memberships@,
            !spec_is_member(old(self).memberships@, addr) ==> final(self).memberships@ == old(
                self,
            ).memberships@.push((group_id, addr)),
            spec_is_member(final(self).memberships@, addr),
    {
        proof {
            lemma_group_of_indices(self.memberships@, addr);
        }
        if self.group_of(addr).is_none() {
            let ghost old_s = self.memberships@;
            self.memberships.push((group_id, addr));
            proof {
                lemma_group_of_indices(self.memberships@, addr);
                assert forall|i: int, j: int|
                    0 <= i < j < self.memberships@.len() implies (
                #[trigger] self.memberships@[i]).1 != (#[trigger] self.memberships@[j]).1 by {
                    if j == old_s.len() {
                        assert(self.memberships@[i] == old_s[i]);
                    }
                }
                if !spec_is_member(self.memberships@, addr) {
                    assert(self.memberships@[old_s.len() as int].1 == addr);
                }
            }
        }
    }

    /// Remove an address from its group, reporting whether it was a member.
    pub fn remove_client(&mut self, addr: u64) -> (r: bool)
        requires
            old(self).wf(),
        ensures
            final(self).wf(),
            r == spec_is_member(old(self).memberships@, addr),
            final(self).memberships@ == spec_remove_addr(old(self).memberships@, addr),
            !spec_is_member(final(self).memberships@, addr),
    {
        let ghost s = self.memberships@;
        proof {
            assert(s.skip(0) =~= s);
        }
        let n = self.memberships.len();
        let mut out: Vec<(usize, u64)> = Vec::new();
        let mut found = false;
        let mut i: usize = 0;
        while i < n
            invariant
                n == s.len(),
                self.memberships@ == s,
                i <= n,
                spec_remove_addr(s, addr) == out@ + spec_remove_addr(s.skip(i as int), addr),
                found ==> spec_is_member(s, addr),
                !found ==> spec_group_of(s, addr) == spec_group_of(s.skip(i as int), addr),
                forall|k: int| 0 <= k < out@.len() ==> (#[trigger] out@[k]).1 != addr,
            decreases n - i,
        {
            proof {
                assert(s.skip(i as int).drop_first() =~= s.skip(i + 1));
            }
            let pair = self.memberships[i];
            if pair.1 == addr {
                found = true;
            } else {
                let ghost old_out = out@;
                out.push(pair);
                proof {
                    assert(old_out + (seq![pair] + spec_remove_addr(s.skip(i + 1), addr)) =~= out@
                        + spec_remove_addr(s.skip(i + 1), addr));
                }
            }
            i = i + 1;
        }
        proof {
            assert(spec_remove_addr(s.skip(n as int), addr) =~= Seq::empty());
            assert(out@ + Seq::<(usize, u64)>::empty() =~= out@);
            lemma_remove_addr_wf(s, addr);
            lemma_group_of_indices(out@, addr);
        }
        self.memberships = out;
        found
    }

    /// All other members of the group that an address belongs to; absent
    /// when the address is ungrouped. The result never contains the
    /// address itself.
    pub fn get_addressess(&self, addr: u64) -> (r: Option<Vec<u64>>)
        ensures
            match r {
                Some(v) => spec_group_of(self.memberships@, addr) is Some && v@ == spec_members(
                    self.memberships@,
                    spec_group_of(self.memberships@, addr).unwrap(),
                    addr,
                ),
                None => spec_group_of(self.memberships@, addr) is None,
            },
            r matches Some(v) ==> forall|k: int| 0 <= k < v@.len() ==> v@[k] != addr,
    {
        let gid = match self.group_of(addr) {
            Some(g) => g,
            None => {
                return None;
            },
        };
        let ghost s = self.memberships@;
        proof {
            assert(s.skip(0) =~= s);
        }
        let n = self.memberships.len();
        let mut out: Vec<u64> = Vec::new();
        let mut i: usize = 0;
        while i < n
            invariant
                n == s.len(),
                self.memberships@ == s,
                i <= n,
                spec_members(s, gid, addr) == out@ + spec_members(s.skip(i as int), gid, addr),
                forall|k: int| 0 <= k < out@.len() ==> out@[k] != addr,
            decreases n - i,
        {
            proof {
                assert(s.skip(i as int).drop_first() =~= s.skip(i + 1));
            }
            let pair = self.memberships[i];
            if pair.0 == gid && pair.1 != addr {
                let ghost old_out = out@;
                out.push(pair.1);
                proof {
                    assert(old_out + (seq![pair.1] + spec_members(s.skip(i + 1), gid, addr)) =~= out@
                        + spec_members(s.skip(i + 1), gid, addr));
                }
            }
            i = i + 1;
        }
        proof {
            assert(spec_members(s.skip(n as int), gid, addr) =~= Seq::empty());
            assert(out@ + Seq::<u64>::empty() =~= out@);
        }
        Some(out)
    }
}

/// A grouped address names an index holding it, and an ungrouped one
/// matches no index.
pub proof fn lemma_group_of_indices(s: Seq<(usize, u64)>, addr: u64)
    ensures
        match spec_group_of(s, addr) {
            Some(g) => exists|i: int| 0 <= i < s.len() && #[trigger] s[i] == (g, addr),
            None => forall|i: int| 0 <= i < s.len() ==> (#[trigger] s[i]).1 != addr,
        },
    decreases s.len(),
{
    if s.len() == 0 {
    } else if s[0].1 == addr {
        assert(s[0] == (spec_group_of(s, addr).unwrap(), addr));
    } else {
        lemma_group_of_indices(s.drop_first(), addr);
        match spec_group_of(s, addr) {
            Some(g) => {
                let j = choose|j: int|
                    0 <= j < s.drop_first().len() && #[trigger] s.drop_first()[j] == (g, addr);
                assert(s[j + 1] == s.drop_first()[j]);
            },
            None => {
                assert forall|i: int| 0 <= i < s.len() implies (#[trigger] s[i]).1 != addr by {
                    if i > 0 {
                        assert(s.drop_first()[i - 1] == s[i]);
                    }
                }
            },
        }
    }
}

/// Removing an address keeps every other pair exactly once: the remainder
/// is made of pairs of the original list, in order, and still holds each
/// address at most once.
pub proof fn lemma_remove_addr_wf(s: Seq<(usize, u64)>, addr: u64)
    requires
        forall|i: int, j: int| 0 <= i < j < s.len() ==> (#[trigger] s[i]).1 != (#[trigger] s[j]).1,
    ensures
        forall|i: int, j: int|
            0 <= i < j < spec_remove_addr(s, addr).len() ==> (#[trigger] spec_remove_addr(
                s,
                addr,
            )[i]).1 != (#[trigger] spec_remove_addr(s, addr)[j]).1,
        forall|k: int|
            0 <= k < spec_remove_addr(s, addr).len() ==> (#[trigger] spec_remove_addr(
                s,
                addr,
            )[k]).1 != addr,
    decreases s.len(),
{
    if s.len() > 0 {
        lemma_remove_addr_wf(s.drop_first(), addr);
        assert forall|i: int, j: int|
            0 <= i < j < s.drop_first().len() implies (#[trigger] s.drop_first()[i]).1 != (
        #[trigger] s.drop_first()[j]).1 by {
            assert(s.drop_first()[i] == s[i + 1] && s.drop_first()[j] == s[j + 1]);
        }
        let rest = spec_remove_addr(s.drop_first(), addr);
        if s[0].1 != addr {
            lemma_remove_member(s.drop_first(), addr, s[0].1);
            assert forall|i: int, j: int|
                0 <= i < j < spec_remove_addr(s, addr).len() implies (#[trigger] spec_remove_addr(
                s,
                addr,
            )[i]).1 != (#[trigger] spec_remove_addr(s, addr)[j]).1 by {
                if i == 0 {
                    assert(spec_remove_addr(s, addr)[j] == rest[j - 1]);
                } else {
                    assert(spec_remove_addr(s, addr)[i] == rest[i - 1]);
                    assert(spec_remove_addr(s, addr)[j] == rest[j - 1]);
                }
            }
        }
    }
}

/// Every pair that survives a removal stood in the original list.
proof fn lemma_remove_member(s: Seq<(usize, u64)>, addr: u64, other: u64)
    requires
        forall|i: int| 0 <= i < s.len() ==> (#[trigger] s[i]).1 != other,
    ensures
        forall|k: int|
            0 <= k < spec_remove_addr(s, addr).len() ==> (#[trigger] spec_remove_addr(
                s,
                addr,
            )[k]).1 != other,
    decreases s.len(),
{
    if s.len() > 0 {
        assert forall|i: int| 0 <= i < s.drop_first().len() implies (#[trigger] s.drop_first()[i]).1
            != other by {
            assert(s.drop_first()[i] == s[i + 1]);
        }
        lemma_remove_member(s.drop_first(), addr, other);
        let rest = spec_remove_addr(s.drop_first(), addr);
        if s[0].1 != addr {
            assert forall|k: int|
                0 <= k < spec_remove_addr(s, addr).len() implies (#[trigger] spec_remove_addr(
                s,
                addr,
            )[k]).1 != other by {
                if k > 0 {
                    assert(spec_remove_addr(s, addr)[k] == rest[k - 1]);
                }
            }
        }
    }
}

/// Every pair surviving a removal holds some other address, and that
/// address was already a member before the removal.
pub proof fn lemma_remove_addr_survivors(s: Seq<(usize, u64)>, addr: u64)
    ensures
        forall|k: int|
            0 <= k < spec_remove_addr(s, addr).len() ==> (#[trigger] spec_remove_addr(
                s,
                addr,
            )[k]).1 != addr,
        forall|k: int|
            0 <= k < spec_remove_addr(s, addr).len() ==> spec_is_member(
                s,
                (#[trigger] spec_remove_addr(s, addr)[k]).1,
            ),
    decreases s.len(),
{
    if s.len() > 0 {
        lemma_remove_addr_survivors(s.drop_first(), addr);
        let rest = spec_remove_addr(s.drop_first(), addr);
        if s[0].1 == addr {
            assert forall|k: int| 0 <= k < spec_remove_addr(s, addr).len() implies (
            #[trigger] spec_remove_addr(s, addr)[k]).1 != addr && spec_is_member(
                s,
                spec_remove_addr(s, addr)[k].1,
            ) by {
                assert(spec_remove_addr(s, addr)[k] == rest[k]);
                assert(spec_is_member(s.drop_first(), rest[k].1));
                assert(spec_group_of(s, rest[k].1) == spec_group_of(s.drop_first(), rest[k].1));
            }
        } else {
            assert forall|k: int| 0 <= k < spec_remove_addr(s, addr).len() implies (
            #[trigger] spec_remove_addr(s, addr)[k]).1 != addr && spec_is_member(
                s,
                spec_remove_addr(s, addr)[k].1,
            ) by {
                if k == 0 {
                    assert(spec_remove_addr(s, addr)[0] == s[0]);
                    assert(spec_group_of(s, s[0].1) == Some(s[0].0));
                } else {
                    assert(spec_remove_addr(s, addr)[k] == rest[k - 1]);
                    assert(spec_is_member(s.drop_first(), rest[k - 1].1));
                    if s[0].1 != rest[k - 1].1 {
                        assert(spec_group_of(s, rest[k - 1].1) == spec_group_of(
                            s.drop_first(),
                            rest[k - 1].1,
                        ));
                    }
                }
            }
        }
    }
}

/// The members of any group, with an address left out, never include that
/// address.
pub proof fn lemma_members_exclude(s: Seq<(usize, u64)>, gid: usize, excl: u64)
    ensures
        forall|k: int|
            0 <= k < spec_members(s, gid, excl).len() ==> #[trigger] spec_members(s, gid, excl)[k]
                != excl,
    decreases s.len(),
{
    if s.len() > 0 {
        lemma_members_exclude(s.drop_first(), gid, excl);
        let rest = spec_members(s.drop_first(), gid, excl);
        if s[0].0 == gid && s[0].1 != excl {
            assert forall|k: int| 0 <= k < spec_members(s, gid, excl).len() implies #[trigger] spec_members(
                s,
                gid,
                excl,
            )[k] != excl by {
                if k > 0 {
                    assert(spec_members(s, gid, excl)[k] == rest[k - 1]);
                }
            }
        }
    }
}

} // verus!
