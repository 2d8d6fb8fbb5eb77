use vstd::prelude::*;
use crate::hex::{hex_of, hex_encode, hex_digit};
use crate::types::{Event, bytes_eq};

verus! {

/// Decimal serialization of a non-negative integer, most significant digit
/// first, as ASCII bytes.
pub open spec fn dec_of(n: int) -> Seq<u8>
    decreases n,
{
    if n < 10 {
        seq![(48 + if n >= 0 { n } else { 0 }) as u8]
    } else {
        dec_of(n / 10) + seq![(48 + n % 10) as u8]
    }
}

/// The canonical escape of one byte inside a JSON string: the seven
/// two-character escapes of the canonical event form; every other byte is
/// passed through unchanged.
pub open spec fn esc_byte(c: u8) -> Seq<u8> {
    if c == 34 {
        seq![92u8, 34u8]
    } else if c == 92 {
        seq![92u8, 92u8]
    } else if c == 10 {
        seq![92u8, 110u8]
    } else if c == 9 {
        seq![92u8, 116u8]
    } else if c == 13 {
        seq![92u8, 114u8]
    } else if c == 8 {
        seq![92u8, 98u8]
    } else if c == 12 {
        seq![92u8, 102u8]
    } else {
        seq![c]
    }
}

/// Canonical escape of a whole byte string.
pub open spec fn esc(s: Seq<u8>) -> Seq<u8>
    decreases s.len(),
{
    if s.len() == 0 {
        Seq::empty()
    } else {
        esc(s.drop_last()) + esc_byte(s.last())
    }
}

/// A JSON string: quote, escaped content, quote.
pub open spec fn quoted(s: Seq<u8>) -> Seq<u8> {
    seq![34u8] + esc(s) + seq![34u8]
}

/// Comma-joined JSON strings.
pub open spec fn quoted_join(ts: Seq<Seq<u8>>) -> Seq<u8>
    decreases ts.len(),
{
    if ts.len() == 0 {
        Seq::empty()
    } else if ts.len() == 1 {
        quoted(ts[0])
    } else {
        quoted_join(ts.drop_last()) + seq![44u8] + quoted(ts.last())
    }
}

/// One tag: a JSON array of strings.
pub open spec fn ser_tag(t: Seq<Seq<u8>>) -> Seq<u8> {
    seq![91u8] + quoted_join(t) + seq![93u8]
}

/// Comma-joined serialized tags.
pub open spec fn tags_join(tags: Seq<Seq<Seq<u8>>>) -> Seq<u8>
    decreases tags.len(),
{
    if tags.len() == 0 {
        Seq::empty()
    } else if tags.len() == 1 {
        ser_tag(tags[0])
    } else {
        tags_join(tags.drop_last()) + seq![44u8] + ser_tag(tags.last())
    }
}

/// The tag list: a JSON array of arrays of strings.
pub open spec fn ser_tags(tags: Seq<Seq<Seq<u8>>>) -> Seq<u8> {
    seq![91u8] + tags_join(tags) + seq![93u8]
}

/// The canonical serialization whose SHA-256 is the event id: the JSON array
/// [0, pubkey_hex, created_at, kind, tags, content] with no insignificant
/// whitespace.
pub open spec fn canonical(e: Event) -> Seq<u8> {
    seq![91u8, 48u8, 44u8] + quoted(hex_of(e.pubkey@)) + seq![44u8] + dec_of(e.created_at as int)
        + seq![44u8] + dec_of(e.kind as int) + seq![44u8] + ser_tags(e.tags.deep_view())
        + seq![44u8] + quoted(e.content@) + seq![93u8]
}

/// SHA-256 as computed by the outside hash implementation; a function of the
/// input bytes alone.
pub uninterp spec fn sha256_of(b: Seq<u8>) -> Seq<u8>;

/// Relies on bitcoin_hashes' sha256::Hash::hash: the digest is a function of
/// the input bytes alone and is 32 bytes long.
#[verifier::external_body]
pub fn sha256(b: &[u8]) -> (r: Vec<u8>)
    ensures
        r@ == sha256_of(b@),
        r@.len() == 32,
{
    bitcoin_hashes::sha256::Hash::hash(b).to_byte_array().to_vec()
}

/// Whether the outside Schnorr implementation accepts `sig` as a BIP-340
/// signature on `msg` under the x-only public key `pubkey`; a function of the
/// three byte strings alone.
pub uninterp spec fn schnorr_valid(pubkey: Seq<u8>, sig: Seq<u8>, msg: Seq<u8>) -> bool;

/// Relies on secp256k1's schnorr::verify (with XOnlyPublicKey::from_byte_array
/// and Signature::from_byte_array): acceptance is a deterministic function of
/// the key, signature and message bytes; a key whose bytes are not a valid
/// x coordinate accepts nothing.
#[verifier::external_body]
pub fn schnorr_verify(pubkey: &[u8], sig: &[u8], msg: &[u8]) -> (r: bool)
    requires
        pubkey@.len() == 32,
        sig@.len() == 64,
    ensures
        r == schnorr_valid(pubkey@, sig@, msg@),
{
    let pk_arr: [u8; 32] = match pubkey.try_into() {
        Ok(a) => a,
        Err(_) => return false,
    };
    let sig_arr: [u8; 64] = match sig.try_into() {
        Ok(a) => a,
        Err(_) => return false,
    };
    let xonly = match secp256k1::XOnlyPublicKey::from_byte_array(pk_arr) {
        Ok(k) => k,
        Err(_) => return false,
    };
    let s = secp256k1::schnorr::Signature::from_byte_array(sig_arr);
    secp256k1::schnorr::verify(&s, msg, &xonly).is_ok()
}

/// Append a literal byte string.
pub fn push_bytes(out: &mut Vec<u8>, s: &[u8])
    ensures
        final(out)@ == old(out)@ + s@,
{
    let mut i: usize = 0;
    proof {
        assert(out@ =~= old(out)@ + s@.take(0));
    }
    while i < s.len()
        invariant
            0 <= i <= s@.len(),
            out@ == old(out)@ + s@.take(i as int),
        decreases s@.len() - i,
    {
        out.push(s[i]);
        proof {
            assert(out@ =~= old(out)@ + s@.take(i as int + 1));
        }
        i = i + 1;
    }
    proof {
        assert(s@.take(s@.len() as int) =~= s@);
    }
}

/// Append the decimal form of `n`.
pub fn push_dec(out: &mut Vec<u8>, n: u64)
    ensures
        final(out)@ == old(out)@ + dec_of(n as int),
    decreases n,
{
    if n >= 10 {
        push_dec(out, n / 10);
        out.push(48 + (n % 10) as u8);
    } else {
        out.push(48 + n as u8);
        proof {
            assert(final(out)@ =~= old(out)@ + dec_of(n as int));
        }
    }
}

/// Append the canonical escape of `s`.
pub fn push_escaped(out: &mut Vec<u8>, s: &[u8])
    ensures
        final(out)@ == old(out)@ + esc(s@),
{
    let mut i: usize = 0;
    proof {
        assert(esc(s@.take(0)) =~= Seq::<u8>::empty());
        assert(out@ =~= old(out)@ + esc(s@.take(0)));
    }
    while i < s.len()
        invariant
            0 <= i <= s@.len(),
            out@ == old(out)@ + esc(s@.take(i as int)),
        decreases s@.len() - i,
    {
        let c = s[i];
        if c == 34 {
            out.push(92);
            out.push(34);
        } else if c == 92 {
            out.push(92);
            out.push(92);
        } else if c == 10 {
            out.push(92);
            out.push(110);
        } else if c == 9 {
            out.push(92);
            out.push(116);
        } else if c == 13 {
            out.push(92);
            out.push(114);
        } else if c == 8 {
            out.push(92);
            out.push(98);
        } else if c == 12 {
            out.push(92);
            out.push(102);
        } else {
            out.push(c);
        }
        proof {
            let t = s@.take(i as int + 1);
            assert(t.drop_last() =~= s@.take(i as int));
            assert(t.last() == s@[i as int]);
            assert(out@ =~= old(out)@ + esc(s@.take(i as int + 1)));
        }
        i = i + 1;
    }
    proof {
        assert(s@.take(s@.len() as int) =~= s@);
    }
}

/// Append a JSON string.
pub fn push_quoted(out: &mut Vec<u8>, s: &[u8])
    ensures
        final(out)@ == old(out)@ + quoted(s@),
{
    out.push(34);
    push_escaped(out, s);
    out.push(34);
    proof {
        assert(final(out)@ =~= old(out)@ + quoted(s@));
    }
}

/// Append one serialized tag.
pub fn push_tag(out: &mut Vec<u8>, t: &Vec<Vec<u8>>)
    ensures
        final(out)@ == old(out)@ + ser_tag(t.deep_view()),
{
    out.push(91);
    let mut i: usize = 0;
    proof {
        assert(quoted_join(t.deep_view().take(0)) =~= Seq::<u8>::empty());
        assert(out@ =~= old(out)@ + seq![91u8] + quoted_join(t.deep_view().take(0)));
    }
    while i < t.len()
        invariant
            0 <= i <= t@.len(),
            t.deep_view().len() == t@.len(),
            out@ == old(out)@ + seq![91u8] + quoted_join(t.deep_view().take(i as int)),
        decreases t@.len() - i,
    {
        if i > 0 {
            out.push(44);
        }
        push_quoted(out, t[i].as_slice());
        proof {
            let dv = t.deep_view();
            let tk = dv.take(i as int + 1);
            assert(tk.drop_last() =~= dv.take(i as int));
            assert(tk.last() == dv[i as int]);
            assert(dv[i as int] == t@[i as int]@);
            if i == 0 {
                assert(quoted_join(tk) == quoted(dv[0]));
                assert(out@ =~= old(out)@ + seq![91u8] + quoted_join(tk));
            } else {
                assert(quoted_join(tk) == quoted_join(dv.take(i as int)) + seq![44u8]
                    + quoted(dv[i as int]));
                assert(out@ =~= old(out)@ + seq![91u8] + quoted_join(tk));
            }
        }
        i = i + 1;
    }
    out.push(93);
    proof {
        assert(t.deep_view().take(t@.len() as int) =~= t.deep_view());
        assert(final(out)@ =~= old(out)@ + ser_tag(t.deep_view()));
    }
}

/// Append the serialized tag list.
pub fn push_tags(out: &mut Vec<u8>, tags: &Vec<Vec<Vec<u8>>>)
    ensures
        final(out)@ == old(out)@ + ser_tags(tags.deep_view()),
{
    out.push(91);
    let mut i: usize = 0;
    proof {
        assert(tags_join(tags.deep_view().take(0)) =~= Seq::<u8>::empty());
        assert(out@ =~= old(out)@ + seq![91u8] + tags_join(tags.deep_view().take(0)));
    }
    while i < tags.len()
        invariant
            0 <= i <= tags@.len(),
            tags.deep_view().len() == tags@.len(),
            out@ == old(out)@ + seq![91u8] + tags_join(tags.deep_view().take(i as int)),
        decreases tags@.len() - i,
    {
        if i > 0 {
            out.push(44);
        }
        push_tag(out, &tags[i]);
        proof {
            let dv = tags.deep_view();
            let tk = dv.take(i as int + 1);
            assert(tk.drop_last() =~= dv.take(i as int));
            assert(tk.last() == dv[i as int]);
            assert(dv[i as int] == tags@[i as int].deep_view());
            if i == 0 {
                assert(tags_join(tk) == ser_tag(dv[0]));
                assert(out@ =~= old(out)@ + seq![91u8] + tags_join(tk));
            } else {
                assert(tags_join(tk) == tags_join(dv.take(i as int)) + seq![44u8]
                    + ser_tag(dv[i as int]));
                assert(out@ =~= old(out)@ + seq![91u8] + tags_join(tk));
            }
        }
        i = i + 1;
    }
    out.push(93);
    proof {
        assert(tags.deep_view().take(tags@.len() as int) =~= tags.deep_view());
        assert(final(out)@ =~= old(out)@ + ser_tags(tags.deep_view()));
    }
}


/// The wire escape of one byte inside a JSON string: the canonical escapes,
/// and a \u00XX form for the remaining control bytes, which valid wire JSON
/// may not hold raw. Everything else passes through unchanged.
pub open spec fn wire_esc_byte(c: u8) -> Seq<u8> {
    if c == 34 || c == 92 || c == 10 || c == 9 || c == 13 || c == 8 || c == 12 {
        esc_byte(c)
    } else if c < 32 {
        seq![92u8, 117u8, 48u8, 48u8, hex_digit(c as int / 16), hex_digit(c as int % 16)]
    } else {
        seq![c]
    }
}

/// Wire escape of a whole byte string.
pub open spec fn wire_esc(s: Seq<u8>) -> Seq<u8>
    decreases s.len(),
{
    if s.len() == 0 {
        Seq::empty()
    } else {
        wire_esc(s.drop_last()) + wire_esc_byte(s.last())
    }
}

/// A wire JSON string: quote, wire-escaped content, quote.
pub open spec fn wire_quoted(s: Seq<u8>) -> Seq<u8> {
    seq![34u8] + wire_esc(s) + seq![34u8]
}

/// Comma-joined wire JSON strings.
pub open spec fn wire_quoted_join(ts: Seq<Seq<u8>>) -> Seq<u8>
    decreases ts.len(),
{
    if ts.len() == 0 {
        Seq::empty()
    } else if ts.len() == 1 {
        wire_quoted(ts[0])
    } else {
        wire_quoted_join(ts.drop_last()) + seq![44u8] + wire_quoted(ts.last())
    }
}

/// One tag on the wire: a JSON array of strings.
pub open spec fn wire_tag(t: Seq<Seq<u8>>) -> Seq<u8> {
    seq![91u8] + wire_quoted_join(t) + seq![93u8]
}

/// Comma-joined wire-serialized tags.
pub open spec fn wire_tags_join(tags: Seq<Seq<Seq<u8>>>) -> Seq<u8>
    decreases tags.len(),
{
    if tags.len() == 0 {
        Seq::empty()
    } else if tags.len() == 1 {
        wire_tag(tags[0])
    } else {
        wire_tags_join(tags.drop_last()) + seq![44u8] + wire_tag(tags.last())
    }
}

/// The tag list on the wire: a JSON array of arrays of strings.
pub open spec fn wire_tags(tags: Seq<Seq<Seq<u8>>>) -> Seq<u8> {
    seq![91u8] + wire_tags_join(tags) + seq![93u8]
}

/// Append the wire escape of `s`.
pub fn push_wire_escaped(out: &mut Vec<u8>, s: &[u8])
    ensures
        final(out)@ == old(out)@ + wire_esc(s@),
{
    let mut i: usize = 0;
    proof {
        assert(wire_esc(s@.take(0)) =~= Seq::<u8>::empty());
        assert(out@ =~= old(out)@ + wire_esc(s@.take(0)));
    }
    while i < s.len()
        invariant
            0 <= i <= s@.len(),
            out@ == old(out)@ + wire_esc(s@.take(i as int)),
        decreases s@.len() - i,
    {
        let c = s[i];
        if c == 34 {
            out.push(92);
            out.push(34);
        } else if c == 92 {
            out.push(92);
            out.push(92);
        } else if c == 10 {
            out.push(92);
            out.push(110);
        } else if c == 9 {
            out.push(92);
            out.push(116);
        } else if c == 13 {
            out.push(92);
            out.push(114);
        } else if c == 8 {
            out.push(92);
            out.push(98);
        } else if c == 12 {
            out.push(92);
            out.push(102);
        } else if c < 32 {
            out.push(92);
            out.push(117);
            out.push(48);
            out.push(48);
            out.push(if c / 16 < 10 {
                48 + c / 16
            } else {
                87 + c / 16
            });
            out.push(if c % 16 < 10 {
                48 + c % 16
            } else {
                87 + c % 16
            });
        } else {
            out.push(c);
        }
        proof {
            let t = s@.take(i as int + 1);
            assert(t.drop_last() =~= s@.take(i as int));
            assert(t.last() == s@[i as int]);
            assert(out@ =~= old(out)@ + wire_esc(s@.take(i as int + 1)));
        }
        i = i + 1;
    }
    proof {
        assert(s@.take(s@.len() as int) =~= s@);
    }
}

/// Append a wire JSON string.
pub fn push_wire_quoted(out: &mut Vec<u8>, s: &[u8])
    ensures
        final(out)@ == old(out)@ + wire_quoted(s@),
{
    out.push(34);
    push_wire_escaped(out, s);
    out.push(34);
    proof {
        assert(final(out)@ =~= old(out)@ + wire_quoted(s@));
    }
}

/// Append one wire-serialized tag.
pub fn push_wire_tag(out: &mut Vec<u8>, t: &Vec<Vec<u8>>)
    ensures
        final(out)@ == old(out)@ + wire_tag(t.deep_view()),
{
    out.push(91);
    let mut i: usize = 0;
    proof {
        assert(wire_quoted_join(t.deep_view().take(0)) =~= Seq::<u8>::empty());
        assert(out@ =~= old(out)@ + seq![91u8] + wire_quoted_join(t.deep_view().take(0)));
    }
    while i < t.len()
        invariant
            0 <= i <= t@.len(),
            t.deep_view().len() == t@.len(),
            out@ == old(out)@ + seq![91u8] + wire_quoted_join(t.deep_view().take(i as int)),
        decreases t@.len() - i,
    {
        if i > 0 {
            out.push(44);
        }
        push_wire_quoted(out, t[i].as_slice());
        proof {
            let dv = t.deep_view();
            let tk = dv.take(i as int + 1);
            assert(tk.drop_last() =~= dv.take(i as int));
            assert(tk.last() == dv[i as int]);
            assert(dv[i as int] == t@[i as int]@);
            if i == 0 {
                assert(wire_quoted_join(tk) == wire_quoted(dv[0]));
                assert(out@ =~= old(out)@ + seq![91u8] + wire_quoted_join(tk));
            } else {
                assert(wire_quoted_join(tk) == wire_quoted_join(dv.take(i as int)) + seq![44u8]
                    + wire_quoted(dv[i as int]));
                assert(out@ =~= old(out)@ + seq![91u8] + wire_quoted_join(tk));
            }
        }
        i = i + 1;
    }
    out.push(93);
    proof {
        assert(t.deep_view().take(t@.len() as int) =~= t.deep_view());
        assert(final(out)@ =~= old(out)@ + wire_tag(t.deep_view()));
    }
}

/// Append the wire-serialized tag list.
pub fn push_wire_tags(out: &mut Vec<u8>, tags: &Vec<Vec<Vec<u8>>>)
    ensures
        final(out)@ == old(out)@ + wire_tags(tags.deep_view()),
{
    out.push(91);
    let mut i: usize = 0;
    proof {
        assert(wire_tags_join(tags.deep_view().take(0)) =~= Seq::<u8>::empty());
        assert(out@ =~= old(out)@ + seq![91u8] + wire_tags_join(tags.deep_view().take(0)));
    }
    while i < tags.len()
        invariant
            0 <= i <= tags@.len(),
            tags.deep_view().len() == tags@.len(),
            out@ == old(out)@ + seq![91u8] + wire_tags_join(tags.deep_view().take(i as int)),
        decreases tags@.len() - i,
    {
        if i > 0 {
            out.push(44);
        }
        push_wire_tag(out, &tags[i]);
        proof {
            let dv = tags.deep_view();
            let tk = dv.take(i as int + 1);
            assert(tk.drop_last() =~= dv.take(i as int));
            assert(tk.last() == dv[i as int]);
            assert(dv[i as int] == tags@[i as int].deep_view());
            if i == 0 {
                assert(wire_tags_join(tk) == wire_tag(dv[0]));
                assert(out@ =~= old(out)@ + seq![91u8] + wire_tags_join(tk));
            } else {
                assert(wire_tags_join(tk) == wire_tags_join(dv.take(i as int)) + seq![44u8]
                    + wire_tag(dv[i as int]));
                assert(out@ =~= old(out)@ + seq![91u8] + wire_tags_join(tk));
            }
        }
        i = i + 1;
    }
    out.push(93);
    proof {
        assert(tags.deep_view().take(tags@.len() as int) =~= tags.deep_view());
        assert(final(out)@ =~= old(out)@ + wire_tags(tags.deep_view()));
    }
}

/// Serialize an event into the canonical byte form hashed for its id.
pub fn event_canonical(e: &Event) -> (r: Vec<u8>)
    ensures
        r@ == canonical(*e),
{
    let mut out: Vec<u8> = Vec::new();
    out.push(91);
    out.push(48);
    out.push(44);
    let pk_hex = hex_encode(e.pubkey.as_slice());
    push_quoted(&mut out, pk_hex.as_slice());
    out.push(44);
    push_dec(&mut out, e.created_at);
    out.push(44);
    push_dec(&mut out, e.kind as u64);
    out.push(44);
    push_tags(&mut out, &e.tags);
    out.push(44);
    push_quoted(&mut out, e.content.as_slice());
    out.push(93);
    proof {
        assert(out@ =~= canonical(*e));
    }
    out
}

/// Compute the canonical id of an event: the SHA-256 of its canonical
/// serialization.
pub fn compute_id(e: &Event) -> (r: Vec<u8>)
    ensures
        r@ == sha256_of(canonical(*e)),
        r@.len() == 32,
{
    let c = event_canonical(e);
    sha256(c.as_slice())
}

/// Whether the stored id field equals the canonical id.
pub open spec fn event_id_ok(e: Event) -> bool {
    e.id@ == sha256_of(canonical(e))
}

/// Whether the signature verifies under the event's pubkey over its id.
pub open spec fn event_sig_ok(e: Event) -> bool {
    schnorr_valid(e.pubkey@, e.sig@, e.id@)
}

/// A valid event: well-formed, id canonical, signature verifying.
pub open spec fn event_valid(e: Event) -> bool {
    e.wf() && event_id_ok(e) && event_sig_ok(e)
}

/// Verify the signature of a well-formed event.
pub fn verify_signature(e: &Event) -> (r: bool)
    requires
        e.wf(),
    ensures
        r == event_sig_ok(*e),
{
    schnorr_verify(e.pubkey.as_slice(), e.sig.as_slice(), e.id.as_slice())
}

/// Why an event was rejected at ingress.
#[derive(Debug)]
pub enum ValidationError {
    /// The id field is not the SHA-256 of the canonical serialization.
    BadId,
    /// The Schnorr signature does not verify under the pubkey over the id.
    BadSignature,
    /// A fixed-size field has the wrong length.
    BadField,
}

/// Ingress validation: accepts exactly the events whose id is canonical and
/// whose signature verifies; anything else is rejected.
pub fn validate_event(e: &Event) -> (r: Result<(), ValidationError>)
    ensures
        r is Ok <==> event_valid(*e),
        r matches Err(err) ==> match err {
            ValidationError::BadField => !e.wf(),
            ValidationError::BadId => e.wf() && !event_id_ok(*e),
            ValidationError::BadSignature => e.wf() && event_id_ok(*e) && !event_sig_ok(*e),
        },
{
    if e.id.len() != 32 || e.pubkey.len() != 32 || e.sig.len() != 64 {
        return Err(ValidationError::BadField);
    }
    let id = compute_id(e);
    if !bytes_eq(id.as_slice(), e.id.as_slice()) {
        return Err(ValidationError::BadId);
    }
    if !verify_signature(e) {
        return Err(ValidationError::BadSignature);
    }
    Ok(())
}

} // verus!
