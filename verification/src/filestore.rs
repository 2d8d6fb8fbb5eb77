use vstd::prelude::*;
use crate::codec::{sha256, sha256_of};
use crate::hex::{hex_of, hex_encode};
use crate::types::{bytes_eq, bytes_clone};
use mime_sniffer::MimeTypeSniffer;

verus! {

/// Why a blob operation failed.
#[derive(Debug)]
pub enum BlobError {
    /// The streamed content does not hash to the authorized hash.
    HashMismatch,
    /// No blob is stored under this hash.
    NotFound,
}

/// A content-addressed blob store: every blob sits under its SHA-256,
/// together with the clamped time it was stored. The base and temp fields
/// are the directory paths (as bytes) that the surrounding file layer
/// derives real paths from.
pub struct FileStore {
    pub base: Vec<u8>,
    pub temp: Vec<u8>,
    pub blobs: Vec<(Vec<u8>, Vec<u8>, u64)>,
    pub last_stored: u64,
}

/// What the mime sniffer reports for a buffer; a function of the buffer
/// bytes alone.
pub uninterp spec fn sniffed_mime(b: Seq<u8>) -> Option<Seq<u8>>;

/// Relies on mime-sniffer's sniff_mime_type (sniff_mime_type_from_local_data):
/// the reported type is a deterministic function of the buffer bytes.
#[verifier::external_body]
fn sniff_mime(buf: &Vec<u8>) -> (r: Option<Vec<u8>>)
    ensures
        r is Some <==> sniffed_mime(buf@) is Some,
        r matches Some(v) ==> sniffed_mime(buf@) == Some(v@),
{
    buf.sniff_mime_type().map(|s| s.as_bytes().to_vec())
}

/// Relies on textnonce's TextNonce::sized_urlsafe: the nonce is random, so
/// nothing but its length is stated; it fails only when the clock predates
/// the epoch.
#[verifier::external_body]
fn text_nonce(len: usize) -> (r: Option<Vec<u8>>)
    requires
        len >= 16,
        len % 4 == 0,
    ensures
        r matches Some(v) ==> v@.len() == len,
{
    match textnonce::TextNonce::sized_urlsafe(len) {
        Ok(n) => Some(n.into_string().into_bytes()),
        Err(_) => None,
    }
}

/// The buffer the mime sniffer sees: the first 128 bytes of the content,
/// zero-padded to 128.
pub open spec fn sniff_buffer(data: Seq<u8>) -> Seq<u8> {
    if data.len() >= 128 {
        data.take(128)
    } else {
        data + Seq::new((128 - data.len()) as nat, |i: int| 0u8)
    }
}

fn build_sniff_buffer(data: &Vec<u8>) -> (r: Vec<u8>)
    ensures
        r@ == sniff_buffer(data@),
{
    let mut buf: Vec<u8> = Vec::new();
    let n: usize = if data.len() >= 128 {
        128
    } else {
        data.len()
    };
    let mut i: usize = 0;
    while i < n
        invariant
            0 <= i <= n,
            n <= data@.len(),
            buf@ =~= data@.take(i as int),
        decreases n - i,
    {
        buf.push(data[i]);
        i = i + 1;
    }
    while buf.len() < 128
        invariant
            buf@.len() <= 128,
            buf@.take(n as int) =~= data@.take(n as int),
            n == if data@.len() >= 128 {
                128int
            } else {
                data@.len() as int
            },
            n <= buf@.len(),
            forall|j: int| n <= j < buf@.len() ==> buf@[j] == 0u8,
        decreases 128 - buf@.len(),
    {
        buf.push(0);
    }
    proof {
        assert(buf@.len() == 128);
        assert forall|j: int| 0 <= j < 128 implies buf@[j] == sniff_buffer(data@)[j] by {
            if j < n {
                assert(buf@.take(n as int)[j] == data@.take(n as int)[j]);
            }
        }
        assert(buf@ =~= sniff_buffer(data@));
    }
    buf
}

/// The two-level fan-out path of a blob: base/xx/yy/(full hex), from the
/// first two byte pairs of the lower-case hex of the hash.
pub open spec fn blob_path_of(base: Seq<u8>, h: Seq<u8>) -> Seq<u8> {
    let x = hex_of(h);
    base + seq![47u8] + x.take(2) + seq![47u8] + x.subrange(2, 4) + seq![47u8] + x
}

/// Compute the on-disk path (as bytes) for a hash.
pub fn blob_path(base: &[u8], hash: &[u8]) -> (r: Vec<u8>)
    requires
        hash@.len() == 32,
    ensures
        r@ == blob_path_of(base@, hash@),
{
    let x = hex_encode(hash);
    let mut out = bytes_clone(base);
    out.push(47);
    out.push(x[0]);
    out.push(x[1]);
    out.push(47);
    out.push(x[2]);
    out.push(x[3]);
    out.push(47);
    let mut i: usize = 0;
    let ghost head = out@;
    while i < x.len()
        invariant
            0 <= i <= x@.len(),
            out@ =~= head + x@.take(i as int),
        decreases x@.len() - i,
    {
        out.push(x[i]);
        i = i + 1;
    }
    proof {
        assert(x@.take(x@.len() as int) =~= x@);
        assert(seq![x@[0], x@[1]] =~= hex_of(hash@).take(2));
        assert(seq![x@[2], x@[3]] =~= hex_of(hash@).subrange(2, 4));
        assert(out@ =~= blob_path_of(base@, hash@));
    }
    out
}

impl FileStore {
    /// Does the store hold a blob under this hash?
    pub open spec fn spec_has(self, h: Seq<u8>) -> bool {
        exists|i: int| 0 <= i < self.blobs@.len() && self.blobs@[i].0@ == h
    }

    /// The content stored under a hash.
    pub open spec fn spec_content(self, h: Seq<u8>) -> Seq<u8> {
        self.blobs@[choose|i: int| 0 <= i < self.blobs@.len() && self.blobs@[i].0@ == h].1@
    }

    /// The stamp a blob was stored under.
    pub open spec fn spec_stored_at(self, h: Seq<u8>) -> u64 {
        self.blobs@[choose|i: int| 0 <= i < self.blobs@.len() && self.blobs@[i].0@ == h].2
    }

    /// Every blob sits under exactly the SHA-256 of its content, and no
    /// hash occurs twice.
    pub open spec fn wf(self) -> bool {
        &&& forall|i: int|
            0 <= i < self.blobs@.len() ==> (#[trigger] self.blobs@[i].0@) == sha256_of(
                self.blobs@[i].1@,
            ) && self.blobs@[i].0@.len() == 32
        &&& forall|i: int, j: int|
            0 <= i < j < self.blobs@.len() ==> self.blobs@[i].0@ != self.blobs@[j].0@
        &&& forall|i: int| 0 <= i < self.blobs@.len() ==> (#[trigger] self.blobs@[i].2)
            <= self.last_stored
    }

    /// An empty store rooted at `base`, with its temp directory beside the
    /// blobs.
    pub fn new(base: Vec<u8>) -> (r: FileStore)
        ensures
            r.wf(),
            r.base@ == base@,
            r.temp@ == base@ + seq![47u8, 116u8, 101u8, 109u8, 112u8],
            r.blobs@.len() == 0,
            r.last_stored == 0,
    {
        let mut temp = bytes_clone(base.as_slice());
        temp.push(47);
        temp.push(116);
        temp.push(101);
        temp.push(109);
        temp.push(112);
        proof {
            assert(temp@ =~= base@ + seq![47u8, 116u8, 101u8, 109u8, 112u8]);
        }
        FileStore { base, temp, blobs: Vec::new(), last_stored: 0 }
    }

    /// A fresh upload path under the temp directory: temp/(32-character
    /// random nonce). None only when no nonce could be drawn.
    pub fn tmpfile(&self) -> (r: Option<Vec<u8>>)
        ensures
            r matches Some(p) ==> p@.len() == self.temp@.len() + 33 && p@.take(
                self.temp@.len() as int,
            ) == self.temp@ && p@[self.temp@.len() as int] == 47u8,
    {
        match text_nonce(32) {
            None => None,
            Some(nonce) => {
                let mut p = bytes_clone(self.temp.as_slice());
                p.push(47);
                let mut i: usize = 0;
                let ghost head = p@;
                while i < nonce.len()
                    invariant
                        0 <= i <= nonce@.len(),
                        p@ =~= head + nonce@.take(i as int),
                    decreases nonce@.len() - i,
                {
                    p.push(nonce[i]);
                    i = i + 1;
                }
                proof {
                    assert(p@.take(self.temp@.len() as int) =~= self.temp@);
                }
                Some(p)
            },
        }
    }

    fn find_index(&self, hash: &[u8]) -> (r: Option<usize>)
        ensures
            r matches Some(i) ==> i < self.blobs@.len() && self.blobs@[i as int].0@ == hash@,
            r is None ==> !self.spec_has(hash@),
    {
        let mut i: usize = 0;
        while i < self.blobs.len()
            invariant
                0 <= i <= self.blobs@.len(),
                forall|j: int| 0 <= j < i ==> self.blobs@[j].0@ != hash@,
            decreases self.blobs@.len() - i,
        {
            if bytes_eq(self.blobs[i].0.as_slice(), hash) {
                return Some(i);
            }
            i = i + 1;
        }
        None
    }

    /// Store a byte stream at time `now`: hash it, verify the authorized
    /// hash when one was given, sniff the type from the first 128 bytes,
    /// and keep the content under its hash with a stamp that never runs
    /// backwards — unless that hash is already present, in which case the
    /// existing copy is trusted and nothing changes. Returns (size, hash,
    /// sniffed type).
    pub fn store(&mut self, data: Vec<u8>, expected_hash: Option<Vec<u8>>, now: u64) -> (r: Result<
        (u64, Vec<u8>, Option<Vec<u8>>),
        BlobError,
    >)
        requires
            old(self).wf(),
        ensures
            final(self).wf(),
            r is Err <==> (expected_hash matches Some(x) && x@ != sha256_of(data@)),
            r matches Err(e2) ==> e2 is HashMismatch && *final(self) == *old(self),
            r matches Ok((size, h, m)) ==> ({
                &&& h@ == sha256_of(data@)
                &&& size == data@.len()
                &&& (m is Some <==> sniffed_mime(sniff_buffer(data@)) is Some)
                &&& (m matches Some(v) ==> sniffed_mime(sniff_buffer(data@)) == Some(v@))
                &&& (old(self).spec_has(h@) ==> *final(self) == *old(self))
                &&& (!old(self).spec_has(h@) ==> ({
                    &&& final(self).blobs@.len() == old(self).blobs@.len() + 1
                    &&& forall|i: int|
                        0 <= i < old(self).blobs@.len() ==> final(self).blobs@[i]
                            == old(self).blobs@[i]
                    &&& final(self).blobs@.last().0@ == h@
                    &&& final(self).blobs@.last().1@ == data@
                    &&& final(self).blobs@.last().2 == (if now >= old(self).last_stored {
                        now
                    } else {
                        old(self).last_stored
                    })
                    &&& final(self).blobs@.last().2 >= old(self).last_stored
                    &&& final(self).last_stored == final(self).blobs@.last().2
                }))
                &&& final(self).spec_has(h@)
                &&& final(self).base == old(self).base
                &&& final(self).temp == old(self).temp
            }),
    {
        let h = sha256(data.as_slice());
        match &expected_hash {
            Some(x) => {
                if !bytes_eq(x.as_slice(), h.as_slice()) {
                    return Err(BlobError::HashMismatch);
                }
            },
            None => {},
        }
        let buf = build_sniff_buffer(&data);
        let m = sniff_mime(&buf);
        let size: u64 = data.len() as u64;
        match self.find_index(h.as_slice()) {
            Some(_) => Ok((size, h, m)),
            None => {
                let key = bytes_clone(h.as_slice());
                let stamp: u64 = if now >= self.last_stored {
                    now
                } else {
                    self.last_stored
                };
                let ghost pre = self.blobs@;
                self.blobs.push((key, data, stamp));
                self.last_stored = stamp;
                proof {
                    assert(self.blobs@.last().0@ == h@);
                    assert(forall|i: int| 0 <= i < pre.len() ==> self.blobs@[i] == pre[i]);
                }
                Ok((size, h, m))
            },
        }
    }

    /// Fetch the content stored under a hash.
    pub fn retrieve(&self, hash: &[u8]) -> (r: Option<Vec<u8>>)
        requires
            self.wf(),
        ensures
            r is Some <==> self.spec_has(hash@),
            r matches Some(b) ==> b@ == self.spec_content(hash@),
    {
        match self.find_index(hash) {
            Some(i) => {
                proof {
                    let c = choose|c: int| 0 <= c < self.blobs@.len() && self.blobs@[c].0@ == hash@;
                    if c != i {
                        assert(false);
                    }
                }
                Some(bytes_clone(self.blobs[i].1.as_slice()))
            },
            None => None,
        }
    }

    /// The length and the stored-at stamp of the blob under a hash.
    pub fn metadata(&self, hash: &[u8]) -> (r: Option<(u64, u64)>)
        requires
            self.wf(),
        ensures
            r is Some <==> self.spec_has(hash@),
            r matches Some(md) ==> md.0 == self.spec_content(hash@).len() && md.1
                == self.spec_stored_at(hash@),
    {
        match self.find_index(hash) {
            Some(i) => {
                proof {
                    let c = choose|c: int| 0 <= c < self.blobs@.len() && self.blobs@[c].0@ == hash@;
                    if c != i {
                        assert(false);
                    }
                }
                Some((self.blobs[i].1.len() as u64, self.blobs[i].2))
            },
            None => None,
        }
    }

    /// Remove the blob stored under a hash.
    pub fn delete(&mut self, hash: &[u8]) -> (r: Result<(), BlobError>)
        requires
            old(self).wf(),
        ensures
            final(self).wf(),
            r is Ok <==> old(self).spec_has(hash@),
            r is Err ==> *final(self) == *old(self),
            !final(self).spec_has(hash@),
            forall|h2: Seq<u8>|
                h2 != hash@ ==> (final(self).spec_has(h2) == old(self).spec_has(h2)),
            forall|h2: Seq<u8>|
                h2 != hash@ && old(self).spec_has(h2) ==> final(self).spec_content(h2) == old(
                    self,
                ).spec_content(h2),
            forall|h2: Seq<u8>|
                h2 != hash@ && old(self).spec_has(h2) ==> final(self).spec_stored_at(h2) == old(
                    self,
                ).spec_stored_at(h2),
            final(self).base == old(self).base,
            final(self).temp == old(self).temp,
    {
        match self.find_index(hash) {
            None => {
                proof {
                    assert(!old(self).spec_has(hash@));
                }
                Err(BlobError::NotFound)
            },
            Some(i) => {
                let ghost pre = self.blobs@;
                self.blobs.remove(i);
                proof {
                    let post = self.blobs@;
                    assert(post =~= pre.subrange(0, i as int) + pre.subrange(
                        i as int + 1,
                        pre.len() as int,
                    ));
                    assert(forall|j: int| 0 <= j < i ==> post[j] == pre[j]);
                    assert(forall|j: int| i <= j < post.len() ==> post[j] == pre[j + 1]);
                    assert forall|h2: Seq<u8>| h2 != hash@ && old(self).spec_has(h2)
                        implies self.spec_has(h2) by {
                        let j = choose|j: int| 0 <= j < pre.len() && pre[j].0@ == h2;
                        if j < i {
                            assert(post[j].0@ == h2);
                        } else {
                            assert(j != i);
                            assert(post[j - 1].0@ == h2);
                        }
                    }
                    assert forall|h2: Seq<u8>| h2 != hash@ && self.spec_has(h2)
                        implies old(self).spec_has(h2) by {
                        let j = choose|j: int| 0 <= j < post.len() && post[j].0@ == h2;
                        if j < i {
                            assert(pre[j].0@ == h2);
                        } else {
                            assert(pre[j + 1].0@ == h2);
                        }
                    }
                    assert forall|h2: Seq<u8>| h2 != hash@ && old(self).spec_has(h2)
                        implies self.spec_content(h2) == old(self).spec_content(h2)
                        && self.spec_stored_at(h2) == old(self).spec_stored_at(h2) by {
                        let cpre = choose|c: int| 0 <= c < pre.len() && pre[c].0@ == h2;
                        let cpost = choose|c: int| 0 <= c < post.len() && post[c].0@ == h2;
                        if cpost < i {
                            assert(pre[cpost].0@ == h2);
                            if cpre != cpost {
                                assert(false);
                            }
                        } else {
                            assert(pre[cpost + 1].0@ == h2);
                            if cpre != cpost + 1 {
                                assert(false);
                            }
                        }
                    }
                    assert(!self.spec_has(hash@)) by {
                        if self.spec_has(hash@) {
                            let j = choose|j: int| 0 <= j < post.len() && post[j].0@ == hash@;
                            if j < i {
                                assert(pre[j].0@ == hash@);
                                assert(pre[i as int].0@ == hash@);
                            } else {
                                assert(pre[j + 1].0@ == hash@);
                                assert(pre[i as int].0@ == hash@);
                            }
                        }
                    }
                }
                Ok(())
            },
        }
    }
}

/// The blob image of commit-time monotonicity: no stored blob's stamp
/// exceeds the store's high-water mark, and a later store stamps at or
/// above that mark — so content committed later never carries an earlier
/// stamp.
pub proof fn lemma_blob_times_monotone(s: FileStore, i: int)
    requires
        s.wf(),
        0 <= i < s.blobs@.len(),
    ensures
        s.blobs@[i].2 <= s.last_stored,
{
}

/// The blob round trip: storing a stream whose hash is not yet present
/// leaves exactly that stream retrievable under its SHA-256, with its
/// length as metadata.
pub proof fn lemma_blob_roundtrip(pre: FileStore, post: FileStore, data: Seq<u8>, h: Seq<u8>)
    requires
        pre.wf(),
        h == sha256_of(data),
        !pre.spec_has(h),
        post.blobs@.len() == pre.blobs@.len() + 1,
        forall|i: int| 0 <= i < pre.blobs@.len() ==> post.blobs@[i] == pre.blobs@[i],
        post.blobs@.last().0@ == h,
        post.blobs@.last().1@ == data,
    ensures
        post.spec_has(h),
        post.spec_content(h) == data,
        post.spec_content(h).len() == data.len(),
{
    let n = pre.blobs@.len() as int;
    assert(post.blobs@[n].0@ == h);
    let c = choose|c: int| 0 <= c < post.blobs@.len() && post.blobs@[c].0@ == h;
    if c != n {
        assert(post.blobs@[c] == pre.blobs@[c]);
        assert(pre.spec_has(h));
    }
}

} // verus!
