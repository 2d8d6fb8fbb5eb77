use vstd::prelude::*;

verus! {

/// A signed Nostr event: 32-byte id, 32-byte public key, creation time in
/// unix seconds, numeric kind, ordered tags (each an ordered list of byte
/// strings), free-form content bytes, and a 64-byte Schnorr signature.
#[derive(Clone)]
pub struct Event {
    pub id: Vec<u8>,
    pub pubkey: Vec<u8>,
    pub created_at: u64,
    pub kind: u16,
    pub tags: Vec<Vec<Vec<u8>>>,
    pub content: Vec<u8>,
    pub sig: Vec<u8>,
}

impl Event {
    /// Structural well-formedness: the fixed-size fields have their sizes.
    pub open spec fn wf(self) -> bool {
        self.id@.len() == 32 && self.pubkey@.len() == 32 && self.sig@.len() == 64
    }
}

/// Replaceable kinds are keyed by (pubkey, kind); only the newest is current.
pub open spec fn is_replaceable_kind(kind: u16) -> bool {
    kind == 0 || kind == 3 || (10000 <= kind && kind < 20000)
}

/// Ephemeral kinds are delivered to live subscriptions but never persisted.
pub open spec fn is_ephemeral_kind(kind: u16) -> bool {
    20000 <= kind && kind < 30000
}

/// Parameterized-replaceable kinds are keyed by (pubkey, kind, d-tag value).
pub open spec fn is_param_replaceable_kind(kind: u16) -> bool {
    30000 <= kind && kind < 40000
}

/// Deletion events carry e-tags naming events to be removed.
pub open spec fn is_deletion_kind(kind: u16) -> bool {
    kind == 5
}

pub fn replaceable_kind(kind: u16) -> (r: bool)
    ensures
        r == is_replaceable_kind(kind),
{
    kind == 0 || kind == 3 || (10000 <= kind && kind < 20000)
}

pub fn ephemeral_kind(kind: u16) -> (r: bool)
    ensures
        r == is_ephemeral_kind(kind),
{
    20000 <= kind && kind < 30000
}

pub fn param_replaceable_kind(kind: u16) -> (r: bool)
    ensures
        r == is_param_replaceable_kind(kind),
{
    30000 <= kind && kind < 40000
}

pub fn deletion_kind(kind: u16) -> (r: bool)
    ensures
        r == is_deletion_kind(kind),
{
    kind == 5
}

/// Byte-string equality, used for ids, pubkeys and tag values throughout.
pub fn bytes_eq(a: &[u8], b: &[u8]) -> (r: bool)
    ensures
        r == (a@ =~= b@),
{
    if a.len() != b.len() {
        return false;
    }
    let mut i: usize = 0;
    while i < a.len()
        invariant
            0 <= i <= a@.len(),
            a@.len() == b@.len(),
            forall|j: int| 0 <= j < i ==> a@[j] == b@[j],
        decreases a@.len() - i,
    {
        if a[i] != b[i] {
            return false;
        }
        i = i + 1;
    }
    true
}

/// Copy a byte string.
pub fn bytes_clone(a: &[u8]) -> (r: Vec<u8>)
    ensures
        r@ =~= a@,
{
    let mut out: Vec<u8> = Vec::new();
    let mut i: usize = 0;
    while i < a.len()
        invariant
            0 <= i <= a@.len(),
            out@ =~= a@.take(i as int),
        decreases a@.len() - i,
    {
        out.push(a[i]);
        i = i + 1;
    }
    proof {
        assert(a@.take(a@.len() as int) =~= a@);
    }
    out
}

/// Is `p` a prefix of `s`?
pub open spec fn is_prefix_of(p: Seq<u8>, s: Seq<u8>) -> bool {
    p.len() <= s.len() && p =~= s.take(p.len() as int)
}

pub fn bytes_prefix_of(p: &[u8], s: &[u8]) -> (r: bool)
    ensures
        r == is_prefix_of(p@, s@),
{
    if p.len() > s.len() {
        return false;
    }
    let mut i: usize = 0;
    while i < p.len()
        invariant
            0 <= i <= p@.len(),
            p@.len() <= s@.len(),
            forall|j: int| 0 <= j < i ==> p@[j] == s@[j],
        decreases p@.len() - i,
    {
        if p[i] != s[i] {
            assert(!is_prefix_of(p@, s@)) by {
                assert(p@[i as int] != s@.take(p@.len() as int)[i as int]);
            }
            return false;
        }
        i = i + 1;
    }
    assert(p@ =~= s@.take(p@.len() as int));
    true
}

/// Lexicographic order on byte strings; ties on replaceable events are
/// broken in favour of the lexicographically smaller id.
pub open spec fn lex_less(a: Seq<u8>, b: Seq<u8>) -> bool
    decreases a.len(),
{
    if a.len() == 0 {
        b.len() > 0
    } else if b.len() == 0 {
        false
    } else if a[0] < b[0] {
        true
    } else if a[0] > b[0] {
        false
    } else {
        lex_less(a.drop_first(), b.drop_first())
    }
}

/// Compare byte strings lexicographically.
pub fn lex_compare(a: &[u8], b: &[u8]) -> (r: bool)
    ensures
        r == lex_less(a@, b@),
{
    let mut i: usize = 0;
    let n: usize = if a.len() < b.len() {
        a.len()
    } else {
        b.len()
    };
    proof {
        assert(a@.skip(0) =~= a@);
        assert(b@.skip(0) =~= b@);
    }
    while i < n
        invariant
            0 <= i <= n,
            n == if a@.len() < b@.len() {
                a@.len()
            } else {
                b@.len()
            },
            forall|j: int| 0 <= j < i ==> a@[j] == b@[j],
            lex_less(a@, b@) == lex_less(a@.skip(i as int), b@.skip(i as int)),
        decreases n - i,
    {
        proof {
            assert(a@.skip(i as int).len() > 0);
            assert(b@.skip(i as int).len() > 0);
            assert(a@.skip(i as int)[0] == a@[i as int]);
            assert(b@.skip(i as int)[0] == b@[i as int]);
            assert(a@.skip(i as int).drop_first() =~= a@.skip(i as int + 1));
            assert(b@.skip(i as int).drop_first() =~= b@.skip(i as int + 1));
        }
        if a[i] < b[i] {
            return true;
        }
        if a[i] > b[i] {
            return false;
        }
        i = i + 1;
    }
    proof {
        assert(a@.skip(i as int).len() == 0 || b@.skip(i as int).len() == 0);
    }
    a.len() < b.len()
}

} // verus!
