//! The header container: an ordered multimap from case-insensitive names to
//! values.

use vstd::prelude::*;
use vstd::utf8::encode_utf8;

verus! {

/// The lower-case form of a byte: an ASCII capital becomes its small letter,
/// every other byte stays as it is.
pub open spec fn lower(b: u8) -> u8 {
    if 0x41 <= b <= 0x5a {
        (b + 0x20) as u8
    } else {
        b
    }
}

/// The lower-case form of a name, byte by byte.
pub open spec fn lower_bytes(name: Seq<u8>) -> Seq<u8> {
    Seq::new(name.len(), |i: int| lower(name[i]))
}

/// Lower-casing a name twice is lower-casing it once.
pub proof fn lemma_lower_bytes_idempotent(name: Seq<u8>)
    ensures
        lower_bytes(lower_bytes(name)) == lower_bytes(name),
{
    assert(lower_bytes(lower_bytes(name)) =~= lower_bytes(name));
}

/// Computes the lower-case form of a name.
pub fn to_lower(name: &[u8]) -> (out: Vec<u8>)
    ensures
        out@ == lower_bytes(name@),
{
    let mut out: Vec<u8> = Vec::with_capacity(name.len());
    let mut i: usize = 0;
    while i < name.len()
        invariant
            i <= name@.len(),
            out@ == lower_bytes(name@.take(i as int)),
        decreases name@.len() - i,
    {
        let b: u8 = name[i];
        let l: u8 = if 0x41 <= b && b <= 0x5a { b + 0x20 } else { b };
        out.push(l);
        i += 1;
        assert(out@ =~= lower_bytes(name@.take(i as int)));
    }
    assert(name@.take(i as int) =~= name@);
    out
}

/// The value of one header, kept byte for byte as it was given.
#[derive(Debug, Clone, PartialEq, Eq)]
pub struct HeaderValue {
    bytes: Vec<u8>,
}

impl View for HeaderValue {
    type V = Seq<u8>;

    closed spec fn view(&self) -> Seq<u8> {
        self.bytes@
    }
}

impl HeaderValue {
    /// The value whose bytes are the UTF-8 encoding of `src`.
    pub fn from_static(src: &'static str) -> (value: HeaderValue)
        ensures
            value@ == encode_utf8(src@),
    {
        HeaderValue { bytes: vstd::slice::slice_to_vec(src.as_bytes()) }
    }

    /// The value whose bytes are `src`.
    pub fn from_bytes(src: &[u8]) -> (value: HeaderValue)
        ensures
            value@ == src@,
    {
        HeaderValue { bytes: vstd::slice::slice_to_vec(src) }
    }

    /// The bytes of the value.
    pub fn as_bytes(&self) -> (bytes: &[u8])
        ensures
            bytes@ == self@,
    {
        self.bytes.as_slice()
    }
}

/// Whether two byte strings are the same.
pub fn same_bytes(a: &[u8], b: &[u8]) -> (same: bool)
    ensures
        same == (a@ == b@),
{
    if a.len() != b.len() {
        return false;
    }
    let mut i: usize = 0;
    while i < a.len()
        invariant
            a@.len() == b@.len(),
            i <= a@.len(),
            a@.take(i as int) == b@.take(i as int),
        decreases a@.len() - i,
    {
        if a[i] != b[i] {
            return false;
        }
        i += 1;
        assert(a@.take(i as int) =~= a@.take(i - 1).push(a@[i - 1]));
        assert(b@.take(i as int) =~= b@.take(i - 1).push(b@[i - 1]));
    }
    assert(a@ =~= a@.take(i as int));
    assert(b@ =~= b@.take(i as int));
    true
}

/// The value of the first pair of `entries` whose name is `key`.
pub open spec fn lookup(entries: Seq<(Seq<u8>, Seq<u8>)>, key: Seq<u8>) -> Option<Seq<u8>>
    decreases entries.len(),
{
    if entries.len() == 0 {
        None
    } else if entries[0].0 == key {
        Some(entries[0].1)
    } else {
        lookup(entries.drop_first(), key)
    }
}

/// Whether every name in `entries` is in lower case.
pub open spec fn all_lower(entries: Seq<(Seq<u8>, Seq<u8>)>) -> bool {
    forall|i: int| 0 <= i < entries.len() ==> lower_bytes(#[trigger] entries[i].0) == entries[i].0
}

/// An ordered collection of headers. A name is held in lower case, which is
/// how names that differ only in case come to be one name; the pairs stay in
/// the order in which they were added, and several pairs may share a name.
#[derive(Debug, Clone, PartialEq, Eq)]
pub struct HeaderMap {
    entries: Vec<(Vec<u8>, HeaderValue)>,
}

impl View for HeaderMap {
    type V = Seq<(Seq<u8>, Seq<u8>)>;

    closed spec fn view(&self) -> Seq<(Seq<u8>, Seq<u8>)> {
        Seq::new(self.entries@.len(), |i: int| (self.entries@[i].0@, self.entries@[i].1@))
    }
}

impl HeaderMap {
    /// Whether the names held are all in lower case. Every map that this
    /// module builds is so.
    pub open spec fn wf(&self) -> bool {
        all_lower(self@)
    }

    /// The map without any header.
    pub fn new() -> (map: HeaderMap)
        ensures
            map@ == Seq::<(Seq<u8>, Seq<u8>)>::empty(),
            map.wf(),
    {
        let map = HeaderMap { entries: Vec::new() };
        assert(map@ =~= Seq::<(Seq<u8>, Seq<u8>)>::empty());
        map
    }

    /// The number of pairs held.
    pub fn len(&self) -> (n: usize)
        ensures
            n == self@.len(),
    {
        self.entries.len()
    }

    /// Whether no pair is held.
    pub fn is_empty(&self) -> (empty: bool)
        ensures
            empty == (self@.len() == 0),
    {
        self.entries.len() == 0
    }

    /// Adds a pair behind those already held, its name given as bytes and
    /// taken in lower case. Pairs held under the same name stay.
    pub fn append(&mut self, name: &[u8], value: HeaderValue)
        ensures
            final(self)@ == old(self)@.push((lower_bytes(name@), value@)),
            old(self).wf() ==> final(self).wf(),
    {
        let key = to_lower(name);
        proof {
            lemma_lower_bytes_idempotent(name@);
        }
        self.entries.push((key, value));
        assert(self@ =~= old(self)@.push((lower_bytes(name@), value@)));
    }

    /// Adds a pair behind those already held, its name taken in lower case.
    /// Pairs held under the same name stay.
    pub fn insert(&mut self, name: &str, value: HeaderValue)
        ensures
            final(self)@ == old(self)@.push((lower_bytes(encode_utf8(name@)), value@)),
            old(self).wf() ==> final(self).wf(),
    {
        self.append(name.as_bytes(), value)
    }

    /// The pair at `index`, counted in the order of adding.
    pub fn entry(&self, index: usize) -> (pair: Option<(&[u8], &HeaderValue)>)
        ensures
            match pair {
                Some((name, value)) => index < self@.len() && (name@, value@)
                    == self@[index as int],
                None => index >= self@.len(),
            },
    {
        if index < self.entries.len() {
            let pair = &self.entries[index];
            Some((pair.0.as_slice(), &pair.1))
        } else {
            None
        }
    }

    /// The value of the first pair held under `name`, whatever the case of
    /// its letters.
    pub fn get(&self, name: &str) -> (value: Option<&HeaderValue>)
        ensures
            match value {
                Some(v) => lookup(self@, lower_bytes(encode_utf8(name@))) == Some(v@),
                None => lookup(self@, lower_bytes(encode_utf8(name@))) is None,
            },
    {
        let key = to_lower(name.as_bytes());
        let mut i: usize = 0;
        assert(self@.skip(0) =~= self@);
        while i < self.entries.len()
            invariant
                i <= self@.len(),
                self@.len() == self.entries@.len(),
                key@ == lower_bytes(encode_utf8(name@)),
                lookup(self@, key@) == lookup(self@.skip(i as int), key@),
            decreases self@.len() - i,
        {
            if same_bytes(self.entries[i].0.as_slice(), key.as_slice()) {
                assert(self@.skip(i as int)[0] == self@[i as int]);
                return Some(&self.entries[i].1);
            }
            assert(self@.skip(i as int)[0] == self@[i as int]);
            assert(self@.skip(i as int).drop_first() =~= self@.skip(i + 1));
            i += 1;
        }
        None
    }
}

} // verus!
