use vstd::prelude::*;
use crate::types::{bytes_eq, bytes_clone};

verus! {

/// A logical key/value table held as an append-only list of rows; the last
/// row written for a key is its current value.
pub open spec fn tbl_lookup<V>(t: Seq<(Vec<u8>, V)>, key: Seq<u8>) -> Option<V>
    decreases t.len(),
{
    if t.len() == 0 {
        None
    } else if t.last().0@ == key {
        Some(t.last().1)
    } else {
        tbl_lookup(t.drop_last(), key)
    }
}

/// A key with a current value occurs somewhere in the table.
pub proof fn lemma_tbl_lookup_key_exists<V>(t: Seq<(Vec<u8>, V)>, key: Seq<u8>)
    requires
        tbl_lookup(t, key) is Some,
    ensures
        exists|i: int| 0 <= i < t.len() && t[i].0@ == key,
    decreases t.len(),
{
    if t.len() > 0 {
        if t.last().0@ == key {
            assert(t[t.len() - 1].0@ == key);
        } else {
            lemma_tbl_lookup_key_exists(t.drop_last(), key);
            let i = choose|i: int| 0 <= i < t.drop_last().len() && t.drop_last()[i].0@ == key;
            assert(t[i].0@ == key);
        }
    }
}

/// Read the current value for a key.
pub fn tbl_get<V: Copy>(t: &Vec<(Vec<u8>, V)>, key: &[u8]) -> (r: Option<V>)
    ensures
        r == tbl_lookup(t@, key@),
{
    let mut i: usize = t.len();
    proof {
        assert(t@.take(t@.len() as int) =~= t@);
    }
    while i > 0
        invariant
            0 <= i <= t@.len(),
            tbl_lookup(t@, key@) == tbl_lookup(t@.take(i as int), key@),
        decreases i,
    {
        i = i - 1;
        proof {
            let tk = t@.take(i as int + 1);
            assert(tk.last() == t@[i as int]);
            assert(tk.drop_last() =~= t@.take(i as int));
        }
        if bytes_eq(t[i].0.as_slice(), key) {
            return Some(t[i].1);
        }
    }
    None
}

/// Write (or overwrite) the current value for a key.
pub fn tbl_set<V>(t: &mut Vec<(Vec<u8>, V)>, key: Vec<u8>, val: V)
    ensures
        tbl_lookup(final(t)@, key@) == Some(val),
        forall|k2: Seq<u8>|
            k2 != key@ ==> tbl_lookup(final(t)@, k2) == tbl_lookup(old(t)@, k2),
{
    let ghost gkey = key@;
    t.push((key, val));
    proof {
        assert(final(t)@.last().0@ == gkey);
        assert(final(t)@.drop_last() =~= old(t)@);
    }
}

/// Collect the distinct keys whose current value is `want`.
pub fn tbl_keys_with_bool(t: &Vec<(Vec<u8>, bool)>, want: bool) -> (r: Vec<Vec<u8>>)
    ensures
        forall|x: int| 0 <= x < r@.len() ==> tbl_lookup(t@, r@[x]@) == Some(want),
        forall|x1: int, x2: int| 0 <= x1 < x2 < r@.len() ==> r@[x1]@ != r@[x2]@,
        forall|k: Seq<u8>|
            tbl_lookup(t@, k) == Some(want) ==> exists|x: int| 0 <= x < r@.len() && r@[x]@ == k,
{
    let mut out: Vec<Vec<u8>> = Vec::new();
    let mut i: usize = 0;
    while i < t.len()
        invariant
            0 <= i <= t@.len(),
            forall|x: int| 0 <= x < out@.len() ==> tbl_lookup(t@, out@[x]@) == Some(want),
            forall|x1: int, x2: int| 0 <= x1 < x2 < out@.len() ==> out@[x1]@ != out@[x2]@,
            forall|j: int|
                0 <= j < i && tbl_lookup(t@, t@[j].0@) == Some(want) ==> exists|x: int|
                    0 <= x < out@.len() && out@[x]@ == t@[j].0@,
        decreases t@.len() - i,
    {
        let ghost out0 = out@;
        let cur = tbl_get(t, t[i].0.as_slice());
        let is_wanted = match cur {
            Some(v) => v == want,
            None => false,
        };
        if is_wanted {
            let mut present = false;
            let mut x: usize = 0;
            while x < out.len()
                invariant
                    0 <= x <= out@.len(),
                    0 <= i < t@.len(),
                    out@ == out0,
                    present ==> exists|x2: int| 0 <= x2 < out@.len() && out@[x2]@ == t@[i as int].0@,
                    !present ==> forall|x2: int| 0 <= x2 < x ==> out@[x2]@ != t@[i as int].0@,
                decreases out@.len() - x,
            {
                if !present && bytes_eq(out[x].as_slice(), t[i].0.as_slice()) {
                    present = true;
                }
                x = x + 1;
            }
            if !present {
                out.push(bytes_clone(t[i].0.as_slice()));
                proof {
                    assert(out@[out@.len() - 1]@ == t@[i as int].0@);
                }
            }
        }
        proof {
            assert(forall|x: int| 0 <= x < out0.len() ==> out@[x] == out0[x]);
            assert forall|j: int|
                0 <= j < i + 1 && tbl_lookup(t@, t@[j].0@) == Some(want) implies exists|x: int|
                0 <= x < out@.len() && out@[x]@ == t@[j].0@ by {
                if j < i {
                    let x0 = choose|x0: int| 0 <= x0 < out0.len() && out0[x0]@ == t@[j].0@;
                    assert(out@[x0]@ == t@[j].0@);
                } else {
                    assert(is_wanted);
                    let x1 = choose|x1: int| 0 <= x1 < out@.len() && out@[x1]@ == t@[i as int].0@;
                    assert(out@[x1]@ == t@[j].0@);
                }
            }
        }
        i = i + 1;
    }
    proof {
        assert forall|k: Seq<u8>| tbl_lookup(t@, k) == Some(want) implies exists|x: int|
            0 <= x < out@.len() && out@[x]@ == k by {
            lemma_tbl_lookup_key_exists(t@, k);
            let j = choose|j: int| 0 <= j < t@.len() && t@[j].0@ == k;
            assert(tbl_lookup(t@, t@[j].0@) == Some(want));
        }
    }
    out
}

} // verus!
