//! The digest engine: a content digest for a file's bytes, computed either
//! directly or over fixed-size chunks whose per-chunk digests are combined
//! order-sensitively.

use vstd::prelude::*;
use vstd::slice::{slice_subrange, slice_to_vec};

use crate::hex::{hex_encode, hex_of};

use sha2::Digest;

verus! {

/// What `sha2::Sha256::digest` returns for the given bytes: the digest
/// depends on the input bytes alone.
pub uninterp spec fn sha256_of(data: Seq<u8>) -> Seq<u8>;

/// Relies on sha2's `Sha256`: the digest is 32 bytes and is a function of
/// the input bytes alone.
#[verifier::external_body]
fn sha256(data: &[u8]) -> (res: Vec<u8>)
    ensures
        res@ == sha256_of(data@),
        res@.len() == 32,
{
    sha2::Sha256::digest(data).to_vec()
}

/// The concatenation of the per-chunk digests of `content`, split into
/// windows of `chunk_size` bytes; a final window of at most `chunk_size`
/// bytes is digested as it stands.
pub open spec fn chunk_digests_of(content: Seq<u8>, chunk_size: u64) -> Seq<u8>
    recommends
        chunk_size >= 1,
    decreases content.len(),
{
    if chunk_size == 0 || content.len() <= chunk_size {
        sha256_of(content)
    } else {
        sha256_of(content.take(chunk_size as int)) + chunk_digests_of(
            content.skip(chunk_size as int),
            chunk_size,
        )
    }
}

/// The file-level digest, as lower-case hex: the direct digest of the
/// content when no chunking applies (`chunk_size` of zero, or content no
/// longer than one chunk), else the digest of the concatenated per-chunk
/// digests. Swapping two chunks changes the concatenation and therefore
/// the result.
pub open spec fn file_digest_of(content: Seq<u8>, chunk_size: u64) -> Seq<u8> {
    if chunk_size == 0 || content.len() <= chunk_size {
        hex_of(sha256_of(content))
    } else {
        hex_of(sha256_of(chunk_digests_of(content, chunk_size)))
    }
}

/// Law: the file digest is a function of the byte content alone — two
/// files whose bytes are identical get identical digests, whatever order
/// or machine they are digested on.
pub proof fn lemma_digest_deterministic(c1: Seq<u8>, c2: Seq<u8>, chunk_size: u64)
    requires
        c1 == c2,
    ensures
        file_digest_of(c1, chunk_size) == file_digest_of(c2, chunk_size),
{
}

/// Digest a whole file content held in memory.
pub fn file_digest(content: &[u8], chunk_size: u64) -> (res: Vec<u8>)
    ensures
        res@ == file_digest_of(content@, chunk_size),
        res@.len() == 64,
{
    if chunk_size == 0 || (content.len() as u64) <= chunk_size {
        let d = sha256(content);
        hex_encode(d.as_slice())
    } else {
        let cs = chunk_size as usize;
        let mut hashes: Vec<u8> = Vec::new();
        let mut i: usize = 0;
        proof {
            assert(content@.skip(0) =~= content@);
            assert(Seq::<u8>::empty() + chunk_digests_of(content@, chunk_size) =~= chunk_digests_of(
                content@,
                chunk_size,
            ));
        }
        while content.len() - i > cs
            invariant
                1 <= cs <= content@.len(),
                cs == chunk_size,
                i <= content@.len(),
                chunk_digests_of(content@, chunk_size) == hashes@ + chunk_digests_of(
                    content@.skip(i as int),
                    chunk_size,
                ),
            decreases content@.len() - i,
        {
            let chunk = slice_subrange(content, i, i + cs);
            let mut d = sha256(chunk);
            proof {
                assert(content@.skip(i as int).take(cs as int) =~= content@.subrange(
                    i as int,
                    i + cs,
                ));
                assert(content@.skip(i as int).skip(cs as int) =~= content@.skip(i + cs));
                assert(hashes@ + (sha256_of(content@.subrange(i as int, i + cs))
                    + chunk_digests_of(content@.skip(i + cs), chunk_size)) =~= (hashes@
                    + sha256_of(content@.subrange(i as int, i + cs))) + chunk_digests_of(
                    content@.skip(i + cs),
                    chunk_size,
                ));
            }
            hashes.append(&mut d);
            i = i + cs;
        }
        let last = slice_subrange(content, i, content.len());
        let mut d = sha256(last);
        proof {
            assert(content@.skip(i as int) =~= content@.subrange(i as int, content@.len() as int));
        }
        hashes.append(&mut d);
        let top = sha256(hashes.as_slice());
        hex_encode(top.as_slice())
    }
}

/// `hashes` is the concatenated chunk digests of `head`, a prefix made of
/// complete chunks: whatever nonempty tail follows `head`, its chunk
/// digests simply continue after `hashes`.
pub open spec fn covers(hashes: Seq<u8>, head: Seq<u8>, chunk_size: u64) -> bool {
    forall|tail: Seq<u8>|
        tail.len() >= 1 ==> chunk_digests_of(head + tail, chunk_size) == hashes
            + #[trigger] chunk_digests_of(tail, chunk_size)
}

/// A streaming digester: bytes are fed in pieces of any size, so that a
/// file can be digested without ever holding more than one chunk (plus the
/// collected 32-byte chunk digests) in memory.
pub struct FileDigester {
    chunk_size: u64,
    size: u64,
    buf: Vec<u8>,
    hashes: Vec<u8>,
    done: Ghost<Seq<u8>>,
}

impl FileDigester {
    /// All the bytes fed so far.
    pub closed spec fn bytes_fed(self) -> Seq<u8> {
        self.done@ + self.buf@
    }

    /// The chunk size this digester was created with.
    pub closed spec fn chunking(self) -> u64 {
        self.chunk_size
    }

    /// Internal consistency: the collected chunk digests cover exactly the
    /// fed bytes that precede the buffered tail.
    pub closed spec fn wf(self) -> bool {
        &&& self.chunk_size >= 1
        &&& self.size == self.bytes_fed().len()
        &&& self.buf@.len() <= self.chunk_size
        &&& covers(self.hashes@, self.done@, self.chunk_size)
        &&& (self.hashes@.len() == 0 ==> self.done@ == Seq::<u8>::empty())
        &&& (self.hashes@.len() > 0 ==> self.done@.len() >= self.chunk_size && self.buf@.len()
            >= 1)
    }

    pub fn new(chunk_size: u64) -> (res: FileDigester)
        requires
            chunk_size >= 1,
        ensures
            res.wf(),
            res.bytes_fed() == Seq::<u8>::empty(),
            res.chunking() == chunk_size,
    {
        let res = FileDigester {
            chunk_size,
            size: 0,
            buf: Vec::new(),
            hashes: Vec::new(),
            done: Ghost(Seq::empty()),
        };
        proof {
            assert forall|tail: Seq<u8>| tail.len() >= 1 implies chunk_digests_of(
                res.done@ + tail,
                chunk_size,
            ) == res.hashes@ + #[trigger] chunk_digests_of(tail, chunk_size) by {
                assert(res.done@ + tail =~= tail);
                assert(res.hashes@ + chunk_digests_of(tail, chunk_size) =~= chunk_digests_of(
                    tail,
                    chunk_size,
                ));
            }
            assert(res.bytes_fed() =~= Seq::<u8>::empty());
        }
        res
    }

    /// Feed the next piece of the file.
    pub fn push(&mut self, data: &[u8])
        requires
            old(self).wf(),
            old(self).bytes_fed().len() + data@.len() <= u64::MAX,
        ensures
            final(self).wf(),
            final(self).bytes_fed() == old(self).bytes_fed() + data@,
            final(self).chunking() == old(self).chunking(),
    {
        self.buf.extend_from_slice(data);
        self.size = self.size + data.len() as u64;
        proof {
            assert(self.buf@ =~= old(self).buf@ + data@);
            assert(self.bytes_fed() =~= old(self).bytes_fed() + data@);
        }
        let ghost whole = self.bytes_fed();
        let cs = self.chunk_size;
        while self.buf.len() as u64 > cs
            invariant
                cs == self.chunk_size,
                cs >= 1,
                self.size == self.bytes_fed().len(),
                self.bytes_fed() == whole,
                self.chunk_size == old(self).chunk_size,
                covers(self.hashes@, self.done@, cs),
                (self.hashes@.len() == 0 ==> self.done@ == Seq::<u8>::empty()),
                (self.hashes@.len() > 0 ==> self.done@.len() >= cs && self.buf@.len() >= 1),
            decreases self.buf@.len(),
        {
            let cs_us = cs as usize;
            let chunk = slice_subrange(self.buf.as_slice(), 0, cs_us);
            let mut d = sha256(chunk);
            let ghost old_buf = self.buf@;
            let ghost old_hashes = self.hashes@;
            let ghost old_done = self.done@;
            let rest = slice_to_vec(slice_subrange(self.buf.as_slice(), cs_us, self.buf.len()));
            self.hashes.append(&mut d);
            self.buf = rest;
            proof {
                let chunk_s = old_buf.subrange(0, cs as int);
                self.done@ = old_done + chunk_s;
                assert forall|tail: Seq<u8>| tail.len() >= 1 implies chunk_digests_of(
                    self.done@ + tail,
                    cs,
                ) == self.hashes@ + #[trigger] chunk_digests_of(tail, cs) by {
                    let ct = chunk_s + tail;
                    assert(ct.len() > cs);
                    assert(self.done@ + tail =~= old_done + ct);
                    assert(chunk_digests_of(old_done + ct, cs) == old_hashes + chunk_digests_of(
                        ct,
                        cs,
                    ));
                    assert(ct.take(cs as int) =~= chunk_s);
                    assert(ct.skip(cs as int) =~= tail);
                    assert(chunk_digests_of(ct, cs) == sha256_of(chunk_s) + chunk_digests_of(
                        tail,
                        cs,
                    ));
                    assert(old_hashes + (sha256_of(chunk_s) + chunk_digests_of(tail, cs)) =~= (
                    old_hashes + sha256_of(chunk_s)) + chunk_digests_of(tail, cs));
                }
                assert(self.buf@ =~= old_buf.subrange(cs as int, old_buf.len() as int));
                assert(self.bytes_fed() =~= old_done + old_buf);
            }
        }
    }

    /// Finish and return the file digest together with the total byte
    /// count that was fed.
    pub fn finish(self) -> (res: (Vec<u8>, u64))
        requires
            self.wf(),
        ensures
            res.0@ == file_digest_of(self.bytes_fed(), self.chunking()),
            res.0@.len() == 64,
            res.1 == self.bytes_fed().len(),
    {
        proof {
            if self.hashes@.len() == 0 {
                assert(self.bytes_fed() =~= self.buf@);
            } else {
                assert(chunk_digests_of(self.bytes_fed(), self.chunk_size) == self.hashes@
                    + chunk_digests_of(self.buf@, self.chunk_size));
                assert(chunk_digests_of(self.buf@, self.chunk_size) == sha256_of(self.buf@));
            }
        }
        let FileDigester { chunk_size, size, buf, mut hashes, done } = self;
        if hashes.len() == 0 {
            let d = sha256(buf.as_slice());
            (hex_encode(d.as_slice()), size)
        } else {
            let mut d = sha256(buf.as_slice());
            hashes.append(&mut d);
            let top = sha256(hashes.as_slice());
            (hex_encode(top.as_slice()), size)
        }
    }
}

} // verus!
