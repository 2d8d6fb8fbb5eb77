use vstd::prelude::*;

verus! {

/// The lower-case hex digit for a value below 16, as an ASCII byte.
pub open spec fn hex_digit(n: int) -> u8
    recommends
        0 <= n < 16,
{
    if n < 10 {
        (48 + n) as u8
    } else {
        (87 + n) as u8
    }
}

/// Lower-case hex encoding of a byte string: two digits per byte.
pub open spec fn hex_of(b: Seq<u8>) -> Seq<u8>
    decreases b.len(),
{
    if b.len() == 0 {
        Seq::empty()
    } else {
        hex_of(b.drop_last()) + seq![
            hex_digit(b.last() as int / 16),
            hex_digit(b.last() as int % 16),
        ]
    }
}

pub proof fn lemma_hex_of_len(b: Seq<u8>)
    ensures
        hex_of(b).len() == 2 * b.len(),
    decreases b.len(),
{
    if b.len() > 0 {
        lemma_hex_of_len(b.drop_last());
    }
}

/// Encode bytes as lower-case hex.
pub fn hex_encode(b: &[u8]) -> (r: Vec<u8>)
    ensures
        r@ == hex_of(b@),
        r@.len() == 2 * b@.len(),
{
    let mut out: Vec<u8> = Vec::new();
    let mut i: usize = 0;
    proof {
        assert(b@.take(0) =~= Seq::<u8>::empty());
    }
    while i < b.len()
        invariant
            0 <= i <= b@.len(),
            out@ == hex_of(b@.take(i as int)),
            out@.len() == 2 * i,
        decreases b@.len() - i,
    {
        let byte = b[i];
        let hi: u8 = byte / 16;
        let lo: u8 = byte % 16;
        out.push(if hi < 10 {
            48 + hi
        } else {
            87 + hi
        });
        out.push(if lo < 10 {
            48 + lo
        } else {
            87 + lo
        });
        proof {
            let t = b@.take(i as int + 1);
            assert(t.drop_last() =~= b@.take(i as int));
            assert(t.last() == b@[i as int]);
            assert(out@ =~= hex_of(b@.take(i as int)) + seq![
                hex_digit(byte as int / 16),
                hex_digit(byte as int % 16),
            ]);
        }
        i = i + 1;
    }
    proof {
        assert(b@.take(b@.len() as int) =~= b@);
        lemma_hex_of_len(b@);
    }
    out
}

/// Hex encoding is injective: equal encodings come from equal bytes.
pub proof fn lemma_hex_of_injective(a: Seq<u8>, b: Seq<u8>)
    requires
        hex_of(a) == hex_of(b),
    ensures
        a =~= b,
    decreases a.len(),
{
    lemma_hex_of_len(a);
    lemma_hex_of_len(b);
    if a.len() > 0 {
        let ha = hex_of(a);
        assert(ha.last() == hex_digit(a.last() as int % 16));
        assert(ha.last() == hex_digit(b.last() as int % 16));
        assert(ha[ha.len() - 2] == hex_digit(a.last() as int / 16));
        assert(ha[ha.len() - 2] == hex_digit(b.last() as int / 16));
        assert(a.last() == b.last());
        assert(hex_of(a.drop_last()) =~= ha.take(ha.len() - 2)) by {
            lemma_hex_of_len(a.drop_last());
        }
        assert(hex_of(b.drop_last()) =~= ha.take(ha.len() - 2)) by {
            lemma_hex_of_len(b.drop_last());
        }
        lemma_hex_of_injective(a.drop_last(), b.drop_last());
        assert(a =~= a.drop_last() + seq![a.last()]);
        assert(b =~= b.drop_last() + seq![b.last()]);
    }
}

/// Is this ASCII byte a lower-case hex digit?
pub open spec fn is_hex_digit(c: u8) -> bool {
    (48 <= c && c <= 57) || (97 <= c && c <= 102)
}

/// The value of a lower-case hex digit.
pub open spec fn hex_val(c: u8) -> int {
    if 48 <= c && c <= 57 {
        c - 48
    } else {
        c - 87
    }
}

/// A byte string is a well-formed lower-case hex encoding when its length is
/// even and every byte is a lower-case hex digit.
pub open spec fn is_hex(s: Seq<u8>) -> bool {
    s.len() % 2 == 0 && forall|i: int| 0 <= i < s.len() ==> is_hex_digit(#[trigger] s[i])
}

pub proof fn lemma_hex_of_is_hex(b: Seq<u8>)
    ensures
        is_hex(hex_of(b)),
    decreases b.len(),
{
    lemma_hex_of_len(b);
    if b.len() > 0 {
        lemma_hex_of_is_hex(b.drop_last());
        lemma_hex_of_len(b.drop_last());
    }
}

/// Decode a lower-case hex string. Returns the decoded bytes exactly when the
/// input is well-formed hex; the encoding of the result is the input itself.
pub fn hex_decode(s: &[u8]) -> (r: Option<Vec<u8>>)
    ensures
        r is Some <==> is_hex(s@),
        r matches Some(v) ==> hex_of(v@) == s@ && v@.len() * 2 == s@.len(),
{
    if s.len() % 2 != 0 {
        return None;
    }
    let mut out: Vec<u8> = Vec::new();
    let mut i: usize = 0;
    proof {
        assert(s@.take(0) =~= Seq::<u8>::empty());
    }
    while i < s.len()
        invariant
            0 <= i <= s@.len(),
            i % 2 == 0,
            s@.len() % 2 == 0,
            out@.len() * 2 == i,
            hex_of(out@) =~= s@.take(i as int),
            forall|j: int| 0 <= j < i ==> is_hex_digit(#[trigger] s@[j]),
        decreases s@.len() - i,
    {
        let hi = s[i];
        let lo = s[i + 1];
        let hv: u8 = if 48 <= hi && hi <= 57 {
            hi - 48
        } else if 97 <= hi && hi <= 102 {
            hi - 87
        } else {
            return None;
        };
        let lv: u8 = if 48 <= lo && lo <= 57 {
            lo - 48
        } else if 97 <= lo && lo <= 102 {
            lo - 87
        } else {
            return None;
        };
        let byte: u8 = hv * 16 + lv;
        let ghost prev = out@;
        out.push(byte);
        proof {
            assert(out@.drop_last() =~= prev);
            assert(out@.last() == byte);
            assert(hex_digit(byte as int / 16) == hi);
            assert(hex_digit(byte as int % 16) == lo);
            assert(hex_of(out@) == hex_of(prev) + seq![
                hex_digit(byte as int / 16),
                hex_digit(byte as int % 16),
            ]);
            assert(s@.take(i as int + 2) =~= s@.take(i as int) + seq![
                s@[i as int],
                s@[i as int + 1],
            ]);
            assert(hex_of(out@) =~= s@.take(i as int + 2));
        }
        i = i + 2;
    }
    proof {
        assert(s@.take(s@.len() as int) =~= s@);
    }
    Some(out)
}

} // verus!
