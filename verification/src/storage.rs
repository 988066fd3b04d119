//! Client registry: remote address to client record.
//!
//! Entries are created on demand when the first datagram arrives from an
//! unknown address; removal is idempotent and reports whether an entry
//! existed.

use crate::client::Client;
use vstd::prelude::*;

verus! {

/// Record of an address: the first (and, well-formed, only) entry holding
/// it.
pub open spec fn spec_get_client(s: Seq<Client>, addr: u64) -> Option<Client>
    decreases s.len(),
{
    if s.len() == 0 {
        None
    } else if s[0].addr == addr {
        Some(s[0])
    } else {
        spec_get_client(s.drop_first(), addr)
    }
}

/// Whether an address is registered.
pub open spec fn spec_contains(s: Seq<Client>, addr: u64) -> bool {
    spec_get_client(s, addr) is Some
}

/// The registry without one address.
pub open spec fn spec_remove_client(s: Seq<Client>, addr: u64) -> Seq<Client>
    decreases s.len(),
{
    if s.len() == 0 {
        Seq::empty()
    } else if s[0].addr == addr {
        spec_remove_client(s.drop_first(), addr)
    } else {
        seq![s[0]] + spec_remove_client(s.drop_first(), addr)
    }
}

/// The client registry, exclusive owner of every record.
#[derive(Debug)]
pub struct ClientStorage {
    pub clients: Vec<Client>,
}

impl ClientStorage {
    /// Each address at most once, every record well-formed.
    pub open spec fn wf(self) -> bool {
        &&& forall|i: int, j: int|
            0 <= i < j < self.clients@.len() ==> (#[trigger] self.clients@[i]).addr != (
            #[trigger] self.clients@[j]).addr
        &&& forall|i: int| 0 <= i < self.clients@.len() ==> (#[trigger] self.clients@[i]).wf()
    }

    /// An empty registry.
    pub fn new() -> (r: ClientStorage)
        ensures
            r.wf(),
            r.clients@.len() == 0,
    {
        ClientStorage { clients: Vec::new() }
    }

    /// Index of an address's record.
    pub fn find(&self, addr: u64) -> (r: Option<usize>)
        ensures
            match r {
                Some(i) => i < self.clients@.len() && self.clients@[i as int].addr == addr
                    && spec_get_client(self.clients@, addr) == Some(self.clients@[i as int]),
                None => !spec_contains(self.clients@, addr),
            },
    {
        proof {
            assert(self.clients@.skip(0) =~= self.clients@);
        }
        let n = self.clients.len();
        let mut i: usize = 0;
        while i < n
            invariant
                n == self.clients@.len(),
                i <= n,
                spec_get_client(self.clients@, addr) == spec_get_client(
                    self.clients@.skip(i as int),
                    addr,
                ),
            decreases n - i,
        {
            proof {
                assert(self.clients@.skip(i as int).drop_first() =~= self.clients@.skip(i + 1));
            }
            if self.clients[i].addr == addr {
                return Some(i);
            }
            i = i + 1;
        }
        None
    }

    /// Whether an address is registered.
    pub fn contains_key(&self, addr: u64) -> (r: bool)
        ensures
            r == spec_contains(self.clients@, addr),
    {
        self.find(addr).is_some()
    }

    /// Index of an address's record, creating a fresh `New` record when
    /// the address is unknown.
    pub fn entry(&mut self, addr: u64) -> (r: usize)
        requires
            old(self).wf(),
        ensures
            final(self).wf(),
            r < final(self).clients@.len(),
            final(self).clients@[r as int].addr == addr,
            spec_get_client(final(self).clients@, addr) == Some(final(self).clients@[r as int]),
            spec_contains(old(self).clients@, addr) ==> final(self).clients@ == old(self).clients@,
            !spec_contains(old(self).clients@, addr) ==> {
                &&& final(self).clients@.len() == old(self).clients@.len() + 1
                &&& final(self).clients@.take(old(self).clients@.len() as int) == old(
                    self,
                ).clients@
                &&& final(self).clients@.last().addr == addr
                &&& final(self).clients@.last().ssl_state is New
                &&& final(self).clients@.last().incoming@.len() == 0
                &&& !final(self).clients@.last().driving
                &&& final(self).clients@.last().media is None
            },
            forall|a: u64|
                a != addr ==> #[trigger] spec_get_client(final(self).clients@, a)
                    == spec_get_client(old(self).clients@, a),
    {
        match self.find(addr) {
            Some(i) => i,
            None => {
                let ghost old_s = self.clients@;
                let i = self.clients.len();
                let c = Client::new(addr);
                proof {
                    lemma_get_client_indices(old_s, addr);
                }
                self.clients.push(c);
                proof {
                    assert forall|a: int, b: int|
                        0 <= a < b < self.clients@.len() implies (#[trigger] self.clients@[a]).addr
                        != (#[trigger] self.clients@[b]).addr by {
                        if b == old_s.len() {
                            assert(self.clients@[a] == old_s[a]);
                        }
                    }
                    lemma_get_client_push_fresh(old_s, self.clients@.last());
                    assert(self.clients@.take(old_s.len() as int) =~= old_s);
                }
                i
            },
        }
    }

    /// Remove an address's record; idempotent, reporting whether one
    /// existed.
    pub fn remove(&mut self, addr: u64) -> (r: bool)
        requires
            old(self).wf(),
        ensures
            final(self).wf(),
            r == spec_contains(old(self).clients@, addr),
            final(self).clients@ == spec_remove_client(old(self).clients@, addr),
            !spec_contains(final(self).clients@, addr),
            forall|a: u64|
                a != addr ==> #[trigger] spec_get_client(final(self).clients@, a)
                    == spec_get_client(old(self).clients@, a),
    {
        let ghost s = self.clients@;
        proof {
            assert(s.skip(0) =~= s);
        }
        let mut out: Vec<Client> = Vec::new();
        let mut found = false;
        let ghost mut i: int = 0;
        while self.clients.len() > 0
            invariant
                0 <= i <= s.len(),
                self.clients@ == s.skip(i),
                spec_remove_client(s, addr) == out@ + spec_remove_client(s.skip(i), addr),
                found ==> spec_contains(s, addr),
                !found ==> spec_get_client(s, addr) == spec_get_client(s.skip(i), addr),
                forall|k: int| 0 <= k < out@.len() ==> (#[trigger] out@[k]).addr != addr,
            decreases self.clients@.len(),
        {
            proof {
                assert(s.skip(i).drop_first() =~= s.skip(i + 1));
                assert(self.clients@.remove(0) =~= s.skip(i).drop_first());
            }
            let c = self.clients.remove(0);
            assert(c == s[i]);
            if c.addr == addr {
                found = true;
            } else {
                let ghost old_out = out@;
                out.push(c);
                proof {
                    assert(old_out + (seq![s[i]] + spec_remove_client(s.skip(i + 1), addr)) =~= out@
                        + spec_remove_client(s.skip(i + 1), addr));
                }
            }
            proof {
                i = i + 1;
            }
        }
        proof {
            assert(s.skip(i) =~= Seq::empty());
            assert(i == s.len());
            assert(spec_remove_client(s.skip(s.len() as int), addr) =~= Seq::<Client>::empty());
            assert(out@ + Seq::<Client>::empty() =~= out@);
            lemma_remove_client_wf(s, addr);
            lemma_get_client_indices(out@, addr);
        }
        self.clients = out;
        found
    }
}

/// Replacing one record with one of the same address keeps every address
/// at most once, registers the new record under that address, and leaves
/// every other lookup unchanged.
pub proof fn lemma_get_client_update(s: Seq<Client>, i: int, c: Client)
    requires
        0 <= i < s.len(),
        c.addr == s[i].addr,
        forall|a: int, b: int|
            0 <= a < b < s.len() ==> (#[trigger] s[a]).addr != (#[trigger] s[b]).addr,
    ensures
        forall|a: int, b: int|
            0 <= a < b < s.update(i, c).len() ==> (#[trigger] s.update(i, c)[a]).addr != (
            #[trigger] s.update(i, c)[b]).addr,
        spec_get_client(s.update(i, c), c.addr) == Some(c),
        forall|a: u64|
            a != c.addr ==> #[trigger] spec_get_client(s.update(i, c), a) == spec_get_client(s, a),
    decreases s.len(),
{
    let t = s.update(i, c);
    assert forall|a: int, b: int| 0 <= a < b < t.len() implies (#[trigger] t[a]).addr != (
    #[trigger] t[b]).addr by {
        assert(s[a].addr != s[b].addr);
    }
    if i == 0 {
        assert(t[0] == c);
        assert(t.drop_first() =~= s.drop_first());
        assert forall|a: u64| a != c.addr implies #[trigger] spec_get_client(t, a)
            == spec_get_client(s, a) by {
            assert(spec_get_client(t, a) == spec_get_client(t.drop_first(), a));
            assert(spec_get_client(s, a) == spec_get_client(s.drop_first(), a));
        }
    } else {
        assert forall|a: int, b: int|
            0 <= a < b < s.drop_first().len() implies (#[trigger] s.drop_first()[a]).addr != (
        #[trigger] s.drop_first()[b]).addr by {
            assert(s.drop_first()[a] == s[a + 1] && s.drop_first()[b] == s[b + 1]);
        }
        assert(s.drop_first()[i - 1] == s[i]);
        lemma_get_client_update(s.drop_first(), i - 1, c);
        assert(t.drop_first() =~= s.drop_first().update(i - 1, c));
        assert(t[0] == s[0]);
        assert(s[0].addr != c.addr);
        assert(spec_get_client(t, c.addr) == spec_get_client(s.drop_first().update(i - 1, c), c.addr));
        assert forall|a: u64| a != c.addr implies #[trigger] spec_get_client(t, a)
            == spec_get_client(s, a) by {
            if s[0].addr != a {
                assert(spec_get_client(t, a) == spec_get_client(
                    s.drop_first().update(i - 1, c),
                    a,
                ));
                assert(spec_get_client(s.drop_first().update(i - 1, c), a) == spec_get_client(
                    s.drop_first(),
                    a,
                ));
                assert(spec_get_client(s, a) == spec_get_client(s.drop_first(), a));
            }
        }
    }
}

/// Deletion is idempotent: removing an address leaves a registry in which
/// that address is no longer present, so a second removal of the same
/// address finds nothing and reports false.
pub proof fn lemma_delete_idempotent(s: Seq<Client>, addr: u64)
    ensures
        !spec_contains(spec_remove_client(s, addr), addr),
        spec_remove_client(spec_remove_client(s, addr), addr) == spec_remove_client(s, addr),
    decreases s.len(),
{
    if s.len() > 0 {
        lemma_delete_idempotent(s.drop_first(), addr);
        let rest = spec_remove_client(s.drop_first(), addr);
        if s[0].addr != addr {
            let t = spec_remove_client(s, addr);
            assert(t[0] == s[0]);
            assert(t.drop_first() =~= rest);
            assert(spec_remove_client(t, addr) =~= seq![t[0]] + spec_remove_client(
                t.drop_first(),
                addr,
            ));
        }
    }
}

/// A registered address names an index holding its record, and an
/// unregistered one matches no index.
pub proof fn lemma_get_client_indices(s: Seq<Client>, addr: u64)
    ensures
        match spec_get_client(s, addr) {
            Some(c) => exists|i: int|
                0 <= i < s.len() && #[trigger] s[i] == c && s[i].addr == addr,
            None => forall|i: int| 0 <= i < s.len() ==> (#[trigger] s[i]).addr != addr,
        },
    decreases s.len(),
{
    if s.len() == 0 {
    } else if s[0].addr == addr {
        assert(s[0] == spec_get_client(s, addr).unwrap());
    } else {
        lemma_get_client_indices(s.drop_first(), addr);
        match spec_get_client(s, addr) {
            Some(c) => {
                let j = choose|j: int|
                    0 <= j < s.drop_first().len() && #[trigger] s.drop_first()[j] == c
                        && s.drop_first()[j].addr == addr;
                assert(s[j + 1] == s.drop_first()[j]);
            },
            None => {
                assert forall|i: int| 0 <= i < s.len() implies (#[trigger] s[i]).addr != addr by {
                    if i > 0 {
                        assert(s.drop_first()[i - 1] == s[i]);
                    }
                }
            },
        }
    }
}

/// Appending a record with a fresh address registers it and leaves every
/// other lookup unchanged.
pub proof fn lemma_get_client_push_fresh(s: Seq<Client>, c: Client)
    requires
        forall|i: int| 0 <= i < s.len() ==> (#[trigger] s[i]).addr != c.addr,
    ensures
        spec_get_client(s.push(c), c.addr) == Some(c),
        forall|a: u64|
            a != c.addr ==> #[trigger] spec_get_client(s.push(c), a) == spec_get_client(s, a),
    decreases s.len(),
{
    if s.len() == 0 {
        assert(s.push(c)[0] == c);
        assert forall|a: u64| a != c.addr implies #[trigger] spec_get_client(s.push(c), a)
            == spec_get_client(s, a) by {
            assert(s.push(c).drop_first() =~= Seq::<Client>::empty());
            assert(spec_get_client(s.push(c), a) == spec_get_client(Seq::<Client>::empty(), a));
        }
    } else {
        assert forall|i: int| 0 <= i < s.drop_first().len() implies (
        #[trigger] s.drop_first()[i]).addr != c.addr by {
            assert(s.drop_first()[i] == s[i + 1]);
        }
        lemma_get_client_push_fresh(s.drop_first(), c);
        assert(s.push(c).drop_first() =~= s.drop_first().push(c));
        assert(s.push(c)[0] == s[0]);
        assert(s[0].addr != c.addr);
        assert forall|a: u64| a != c.addr implies #[trigger] spec_get_client(s.push(c), a)
            == spec_get_client(s, a) by {
            if s[0].addr != a {
                assert(spec_get_client(s.push(c), a) == spec_get_client(
                    s.drop_first().push(c),
                    a,
                ));
                assert(spec_get_client(s.drop_first().push(c), a) == spec_get_client(
                    s.drop_first(),
                    a,
                ));
            }
        }
    }
}

/// Removing an address keeps every other record exactly once and in
/// order, with each address still at most once, and leaves every other
/// lookup unchanged.
pub proof fn lemma_remove_client_wf(s: Seq<Client>, addr: u64)
    requires
        forall|i: int, j: int|
            0 <= i < j < s.len() ==> (#[trigger] s[i]).addr != (#[trigger] s[j]).addr,
        forall|i: int| 0 <= i < s.len() ==> (#[trigger] s[i]).wf(),
    ensures
        forall|i: int, j: int|
            0 <= i < j < spec_remove_client(s, addr).len() ==> (#[trigger] spec_remove_client(
                s,
                addr,
            )[i]).addr != (#[trigger] spec_remove_client(s, addr)[j]).addr,
        forall|k: int|
            0 <= k < spec_remove_client(s, addr).len() ==> (#[trigger] spec_remove_client(
                s,
                addr,
            )[k]).addr != addr && spec_remove_client(s, addr)[k].wf(),
        forall|a: u64|
            a != addr ==> #[trigger] spec_get_client(spec_remove_client(s, addr), a)
                == spec_get_client(s, a),
    decreases s.len(),
{
    if s.len() > 0 {
        assert forall|i: int, j: int|
            0 <= i < j < s.drop_first().len() implies (#[trigger] s.drop_first()[i]).addr != (
        #[trigger] s.drop_first()[j]).addr by {
            assert(s.drop_first()[i] == s[i + 1] && s.drop_first()[j] == s[j + 1]);
        }
        assert forall|i: int| 0 <= i < s.drop_first().len() implies (
        #[trigger] s.drop_first()[i]).wf() by {
            assert(s.drop_first()[i] == s[i + 1]);
        }
        lemma_remove_client_wf(s.drop_first(), addr);
        let rest = spec_remove_client(s.drop_first(), addr);
        if s[0].addr == addr {
            assert forall|a: u64| a != addr implies #[trigger] spec_get_client(
                spec_remove_client(s, addr),
                a,
            ) == spec_get_client(s, a) by {
                assert(spec_remove_client(s, addr) == rest);
                assert(spec_get_client(rest, a) == spec_get_client(s.drop_first(), a));
                assert(spec_get_client(s, a) == spec_get_client(s.drop_first(), a));
            }
        }
        if s[0].addr != addr {
            assert forall|i: int| 0 <= i < s.drop_first().len() implies (
            #[trigger] s.drop_first()[i]).addr != s[0].addr by {
                assert(s.drop_first()[i] == s[i + 1]);
            }
            lemma_remove_keeps_absent(s.drop_first(), addr, s[0].addr);
            assert forall|i: int, j: int|
                0 <= i < j < spec_remove_client(s, addr).len() implies (
            #[trigger] spec_remove_client(s, addr)[i]).addr != (#[trigger] spec_remove_client(
                s,
                addr,
            )[j]).addr by {
                if i == 0 {
                    assert(spec_remove_client(s, addr)[j] == rest[j - 1]);
                } else {
                    assert(spec_remove_client(s, addr)[i] == rest[i - 1]);
                    assert(spec_remove_client(s, addr)[j] == rest[j - 1]);
                }
            }
            assert forall|k: int| 0 <= k < spec_remove_client(s, addr).len() implies (
            #[trigger] spec_remove_client(s, addr)[k]).addr != addr && spec_remove_client(
                s,
                addr,
            )[k].wf() by {
                if k > 0 {
                    assert(spec_remove_client(s, addr)[k] == rest[k - 1]);
                }
            }
            assert forall|a: u64| a != addr implies #[trigger] spec_get_client(
                spec_remove_client(s, addr),
                a,
            ) == spec_get_client(s, a) by {
                assert(spec_remove_client(s, addr).drop_first() =~= rest);
                assert(spec_remove_client(s, addr)[0] == s[0]);
                assert(spec_remove_client(s, addr).len() > 0);
                if s[0].addr != a {
                    assert(spec_get_client(spec_remove_client(s, addr), a) == spec_get_client(
                        rest,
                        a,
                    ));
                    assert(spec_get_client(rest, a) == spec_get_client(s.drop_first(), a));
                    assert(spec_get_client(s, a) == spec_get_client(s.drop_first(), a));
                }
            }
        }
    }
}

/// No address absent from a list appears after a removal either.
proof fn lemma_remove_keeps_absent(s: Seq<Client>, addr: u64, other: u64)
    requires
        forall|i: int| 0 <= i < s.len() ==> (#[trigger] s[i]).addr != other,
    ensures
        forall|k: int|
            0 <= k < spec_remove_client(s, addr).len() ==> (#[trigger] spec_remove_client(
                s,
                addr,
            )[k]).addr != other,
    decreases s.len(),
{
    if s.len() > 0 {
        assert forall|i: int| 0 <= i < s.drop_first().len() implies (
        #[trigger] s.drop_first()[i]).addr != other by {
            assert(s.drop_first()[i] == s[i + 1]);
        }
        lemma_remove_keeps_absent(s.drop_first(), addr, other);
        let rest = spec_remove_client(s.drop_first(), addr);
        if s[0].addr != addr {
            assert forall|k: int| 0 <= k < spec_remove_client(s, addr).len() implies (
            #[trigger] spec_remove_client(s, addr)[k]).addr != other by {
                if k > 0 {
                    assert(spec_remove_client(s, addr)[k] == rest[k - 1]);
                }
            }
        }
    }
}

} // verus!
