//! Per-client media-negotiation table.
//!
//! Each peer negotiates its own payload-type number for every codec it
//! offers. The table is a bidirectional mapping between the 7-bit payload
//! type and the codec name; names are normalised to lowercase ASCII on
//! insertion and on lookup, so that lookups are case-insensitive.

use vstd::prelude::*;

verus! {

/// Lowercase an ASCII byte; every other byte is kept.
pub open spec fn spec_lower_byte(b: u8) -> u8 {
    if 65 <= b <= 90 {
        (b + 32) as u8
    } else {
        b
    }
}

/// Lowercase a byte string, byte by byte.
pub open spec fn spec_lower(s: Seq<u8>) -> Seq<u8> {
    s.map_values(|b: u8| spec_lower_byte(b))
}

/// Lowercase an ASCII codec name.
pub fn lower_ascii(name: &Vec<u8>) -> (r: Vec<u8>)
    ensures
        r@ == spec_lower(name@),
{
    let mut out: Vec<u8> = Vec::new();
    let mut i: usize = 0;
    while i < name.len()
        invariant
            i <= name@.len(),
            out@ == spec_lower(name@.take(i as int)),
        decreases name@.len() - i,
    {
        let b = name[i];
        let low: u8 = if 65 <= b && b <= 90 {
            b + 32
        } else {
            b
        };
        out.push(low);
        proof {
            assert(name@.take(i + 1).map_values(|x: u8| spec_lower_byte(x)) =~= name@.take(
                i as int,
            ).map_values(|x: u8| spec_lower_byte(x)).push(spec_lower_byte(name@[i as int])));
        }
        i = i + 1;
    }
    proof {
        assert(name@.take(name@.len() as int) =~= name@);
    }
    out
}

/// One negotiated codec of a peer.
#[derive(Clone, PartialEq, Eq, Debug)]
pub struct MediaEntry {
    /// The peer's payload-type number for this codec.
    pub payload: u8,
    /// The codec name, lowercase ASCII.
    pub name: Vec<u8>,
}

/// First codec name listed for a payload type.
pub open spec fn spec_get_name(s: Seq<MediaEntry>, payload: u8) -> Option<Seq<u8>>
    decreases s.len(),
{
    if s.len() == 0 {
        None
    } else if s[0].payload == payload {
        Some(s[0].name@)
    } else {
        spec_get_name(s.drop_first(), payload)
    }
}

/// First payload type listed for a codec name (the name already lowercase).
pub open spec fn spec_get_id(s: Seq<MediaEntry>, name: Seq<u8>) -> Option<u8>
    decreases s.len(),
{
    if s.len() == 0 {
        None
    } else if s[0].name@ == name {
        Some(s[0].payload)
    } else {
        spec_get_id(s.drop_first(), name)
    }
}

/// A peer's negotiation table: an ordered list of `(payload type, codec
/// name)` pairs serving as a bidirectional mapping.
#[derive(Clone, Debug)]
pub struct MediaTable {
    pub entries: Vec<MediaEntry>,
}

impl MediaTable {
    /// A well-formed table is a bijection between its payload types and its
    /// codec names: payload types pairwise distinct, names pairwise
    /// distinct, every payload type 7-bit and every name lowercase.
    pub open spec fn wf(self) -> bool {
        &&& forall|i: int, j: int|
            0 <= i < j < self.entries@.len() ==> (#[trigger] self.entries@[i]).payload != (
            #[trigger] self.entries@[j]).payload && self.entries@[i].name@ != self.entries@[j].name@
        &&& forall|i: int|
            0 <= i < self.entries@.len() ==> (#[trigger] self.entries@[i]).payload < 128
                && spec_lower(self.entries@[i].name@) == self.entries@[i].name@
    }

    /// The empty table.
    pub fn new() -> (r: MediaTable)
        ensures
            r.wf(),
            r.entries@.len() == 0,
    {
        MediaTable { entries: Vec::new() }
    }

    /// Record one negotiated codec. The name is lowercased; an entry whose
    /// payload type or name is already present, or whose payload type is
    /// not a 7-bit value, is rejected so the table stays a bijection.
    pub fn add(&mut self, payload: u8, name: Vec<u8>) -> (r: bool)
        requires
            old(self).wf(),
        ensures
            final(self).wf(),
            r == (payload < 128 && spec_get_name(old(self).entries@, payload) is None
                && spec_get_id(old(self).entries@, spec_lower(name@)) is None),
            r ==> final(self).entries@.len() == old(self).entries@.len() + 1,
            r ==> final(self).entries@.last().payload == payload,
            r ==> final(self).entries@.last().name@ == spec_lower(name@),
            r ==> final(self).entries@.take(old(self).entries@.len() as int) == old(self).entries@,
            !r ==> *final(self) == *old(self),
    {
        let low = lower_ascii(&name);
        proof {
            lemma_lower_idempotent(name@);
        }
        if payload >= 128 {
            return false;
        }
        if self.get_name(payload).is_some() {
            return false;
        }
        if self.get_id(&low).is_some() {
            return false;
        }
        proof {
            lemma_get_name_indices(self.entries@, payload);
            lemma_get_id_indices(self.entries@, spec_lower(name@));
        }
        let ghost old_entries = self.entries@;
        self.entries.push(MediaEntry { payload, name: low });
        proof {
            assert(self.entries@.take(old_entries.len() as int) =~= old_entries);
            lemma_push_keeps_wf(old_entries, self.entries@.last());
        }
        true
    }

    /// Codec name this peer negotiated for a payload type.
    pub fn get_name(&self, payload: u8) -> (r: Option<Vec<u8>>)
        ensures
            match r {
                Some(n) => spec_get_name(self.entries@, payload) == Some(n@),
                None => spec_get_name(self.entries@, payload) is None,
            },
    {
        proof {
            assert(self.entries@.skip(0) =~= self.entries@);
        }
        let n = self.entries.len();
        let mut i: usize = 0;
        while i < n
            invariant
                n == self.entries@.len(),
                i <= n,
                spec_get_name(self.entries@, payload) == spec_get_name(
                    self.entries@.skip(i as int),
                    payload,
                ),
            decreases n - i,
        {
            proof {
                assert(self.entries@.skip(i as int).drop_first() =~= self.entries@.skip(i + 1));
            }
            if self.entries[i].payload == payload {
                return Some(self.entries[i].name.clone());
            }
            i = i + 1;
        }
        None
    }

    /// Payload type this peer negotiated for a codec name; the lookup is
    /// case-insensitive.
    pub fn get_id(&self, name: &Vec<u8>) -> (r: Option<u8>)
        ensures
            match r {
                Some(p) => spec_get_id(self.entries@, spec_lower(name@)) == Some(p),
                None => spec_get_id(self.entries@, spec_lower(name@)) is None,
            },
    {
        let low = lower_ascii(name);
        proof {
            assert(self.entries@.skip(0) =~= self.entries@);
        }
        let n = self.entries.len();
        let mut i: usize = 0;
        while i < n
            invariant
                n == self.entries@.len(),
                i <= n,
                low@ == spec_lower(name@),
                spec_get_id(self.entries@, spec_lower(name@)) == spec_get_id(
                    self.entries@.skip(i as int),
                    spec_lower(name@),
                ),
            decreases n - i,
        {
            proof {
                assert(self.entries@.skip(i as int).drop_first() =~= self.entries@.skip(i + 1));
            }
            if vec_u8_eq(&self.entries[i].name, &low) {
                return Some(self.entries[i].payload);
            }
            i = i + 1;
        }
        None
    }
}

/// Destination payload type for a source packet: the codec name the source
/// peer negotiated for its payload type, looked up in the destination
/// peer's table. Absent when either table lacks the codec.
pub open spec fn spec_translate(src: Seq<MediaEntry>, dst: Seq<MediaEntry>, payload: u8) -> Option<
    u8,
> {
    match spec_get_name(src, payload) {
        Some(n) => spec_get_id(dst, n),
        None => None,
    }
}

/// Translate a payload type from the source peer's numbering to the
/// destination peer's numbering via the codec name.
pub fn translate_payload(src: &MediaTable, dst: &MediaTable, payload: u8) -> (r: Option<u8>)
    requires
        src.wf(),
    ensures
        r == spec_translate(src.entries@, dst.entries@, payload),
{
    match src.get_name(payload) {
        Some(n) => {
            proof {
                lemma_get_name_indices(src.entries@, payload);
                let i = choose|i: int|
                    0 <= i < src.entries@.len() && (#[trigger] src.entries@[i]).payload == payload
                        && src.entries@[i].name@ == n@;
                assert(spec_lower(n@) == n@);
            }
            dst.get_id(&n)
        },
        None => None,
    }
}

/// Translating a payload type from one peer to another and back returns the
/// original value, for any two well-formed tables that both list the codec.
pub proof fn lemma_translate_round_trip(src: MediaTable, dst: MediaTable, pt: u8, dpt: u8)
    requires
        src.wf(),
        dst.wf(),
        spec_translate(src.entries@, dst.entries@, pt) == Some(dpt),
    ensures
        spec_translate(dst.entries@, src.entries@, dpt) == Some(pt),
{
    let s = src.entries@;
    let d = dst.entries@;
    let n = spec_get_name(s, pt).unwrap();
    lemma_get_name_indices(s, pt);
    let i = choose|i: int| 0 <= i < s.len() && (#[trigger] s[i]).payload == pt && s[i].name@ == n;
    lemma_get_id_indices(d, n);
    let j = choose|j: int| 0 <= j < d.len() && (#[trigger] d[j]).name@ == n && d[j].payload == dpt;
    // the destination's name for dpt is n, by uniqueness of payload types
    lemma_get_name_indices(d, dpt);
    match spec_get_name(d, dpt) {
        Some(m) => {
            let k = choose|k: int|
                0 <= k < d.len() && (#[trigger] d[k]).payload == dpt && d[k].name@ == m;
            assert(k == j);
            // the source's payload type for n is pt, by uniqueness of names
            lemma_get_id_indices(s, n);
            match spec_get_id(s, n) {
                Some(p) => {
                    let k2 = choose|k2: int|
                        0 <= k2 < s.len() && (#[trigger] s[k2]).name@ == n && s[k2].payload == p;
                    assert(k2 == i);
                },
                None => {
                    assert(s[i].name@ == n);
                },
            }
        },
        None => {
            assert(d[j].payload == dpt);
        },
    }
}

/// Byte-string equality.
pub fn vec_u8_eq(a: &Vec<u8>, b: &Vec<u8>) -> (r: bool)
    ensures
        r == (a@ == b@),
{
    if a.len() != b.len() {
        return false;
    }
    let n = a.len();
    let mut i: usize = 0;
    while i < n
        invariant
            n == a@.len() == b@.len(),
            i <= n,
            forall|k: int| 0 <= k < i ==> a@[k] == b@[k],
        decreases n - i,
    {
        if a[i] != b[i] {
            return false;
        }
        i = i + 1;
    }
    proof {
        assert(a@ =~= b@);
    }
    true
}

/// Lowercasing is idempotent.
pub proof fn lemma_lower_idempotent(s: Seq<u8>)
    ensures
        spec_lower(spec_lower(s)) == spec_lower(s),
{
    assert forall|i: int| 0 <= i < s.len() implies spec_lower(spec_lower(s))[i] == spec_lower(
        s,
    )[i] by {
        assert(spec_lower(s)[i] == spec_lower_byte(s[i]));
        assert(spec_lower(spec_lower(s))[i] == spec_lower_byte(spec_lower_byte(s[i])));
    }
    assert(spec_lower(spec_lower(s)) =~= spec_lower(s));
}

/// A successful name lookup names an index holding the match, and a failed
/// one means no index matches.
pub proof fn lemma_get_name_indices(s: Seq<MediaEntry>, payload: u8)
    ensures
        match spec_get_name(s, payload) {
            Some(n) => exists|i: int|
                0 <= i < s.len() && (#[trigger] s[i]).payload == payload && s[i].name@ == n,
            None => forall|i: int| 0 <= i < s.len() ==> (#[trigger] s[i]).payload != payload,
        },
    decreases s.len(),
{
    if s.len() == 0 {
    } else if s[0].payload == payload {
        assert(0 <= 0 < s.len() && s[0].payload == payload && s[0].name@ == spec_get_name(
            s,
            payload,
        ).unwrap());
    } else {
        lemma_get_name_indices(s.drop_first(), payload);
        match spec_get_name(s, payload) {
            Some(n) => {
                let j = choose|j: int|
                    0 <= j < s.drop_first().len() && (#[trigger] s.drop_first()[j]).payload
                        == payload && s.drop_first()[j].name@ == n;
                assert(s[j + 1] == s.drop_first()[j]);
            },
            None => {
                assert forall|i: int| 0 <= i < s.len() implies (#[trigger] s[i]).payload
                    != payload by {
                    if i > 0 {
                        assert(s.drop_first()[i - 1] == s[i]);
                    }
                }
            },
        }
    }
}

/// A successful id lookup names an index holding the match, and a failed
/// one means no index matches.
pub proof fn lemma_get_id_indices(s: Seq<MediaEntry>, name: Seq<u8>)
    ensures
        match spec_get_id(s, name) {
            Some(p) => exists|i: int|
                0 <= i < s.len() && (#[trigger] s[i]).name@ == name && s[i].payload == p,
            None => forall|i: int| 0 <= i < s.len() ==> (#[trigger] s[i]).name@ != name,
        },
    decreases s.len(),
{
    if s.len() == 0 {
    } else if s[0].name@ == name {
        assert(0 <= 0 < s.len() && s[0].name@ == name && s[0].payload == spec_get_id(
            s,
            name,
        ).unwrap());
    } else {
        lemma_get_id_indices(s.drop_first(), name);
        match spec_get_id(s, name) {
            Some(p) => {
                let j = choose|j: int|
                    0 <= j < s.drop_first().len() && (#[trigger] s.drop_first()[j]).name@ == name
                        && s.drop_first()[j].payload == p;
                assert(s[j + 1] == s.drop_first()[j]);
            },
            None => {
                assert forall|i: int| 0 <= i < s.len() implies (#[trigger] s[i]).name@ != name by {
                    if i > 0 {
                        assert(s.drop_first()[i - 1] == s[i]);
                    }
                }
            },
        }
    }
}

/// Pushing an entry whose payload type and name are both fresh keeps a
/// table's bijection.
proof fn lemma_push_keeps_wf(s: Seq<MediaEntry>, e: MediaEntry)
    requires
        forall|i: int, j: int|
            0 <= i < j < s.len() ==> (#[trigger] s[i]).payload != (#[trigger] s[j]).payload
                && s[i].name@ != s[j].name@,
        forall|i: int|
            0 <= i < s.len() ==> (#[trigger] s[i]).payload < 128 && spec_lower(s[i].name@)
                == s[i].name@,
        forall|i: int| 0 <= i < s.len() ==> (#[trigger] s[i]).payload != e.payload,
        forall|i: int| 0 <= i < s.len() ==> (#[trigger] s[i]).name@ != e.name@,
        e.payload < 128,
        spec_lower(e.name@) == e.name@,
    ensures
        forall|i: int, j: int|
            0 <= i < j < s.push(e).len() ==> (#[trigger] s.push(e)[i]).payload != (
            #[trigger] s.push(e)[j]).payload && s.push(e)[i].name@ != s.push(e)[j].name@,
        forall|i: int|
            0 <= i < s.push(e).len() ==> (#[trigger] s.push(e)[i]).payload < 128 && spec_lower(
                s.push(e)[i].name@,
            ) == s.push(e)[i].name@,
{
}

} // verus!
