//! Assets and outputs: content digests, which files are copied, which outputs
//! are expected and which are stale. The digest is the `sha2` crate's SHA-256.

use sha2::Digest;
use vstd::prelude::*;

verus! {

// ---------------------------------------------------------------------------
// Content digests
// ---------------------------------------------------------------------------

/// A running SHA-256 over the bytes fed so far. The hasher is `sha2::Sha256`,
/// a type that Verus cannot look into, so the whole struct is opaque to it;
/// `absorbed` names the bytes it has taken in.
#[verifier::external_body]
pub struct ContentHasher {
    state: sha2::Sha256,
}

/// The bytes that a hasher has taken in, in order.
pub uninterp spec fn absorbed(hasher: ContentHasher) -> Seq<u8>;

/// The SHA-256 digest of a sequence of bytes.
pub uninterp spec fn sha256(data: Seq<u8>) -> Seq<u8>;

/// `Sha256::new`: a hasher that has taken in nothing.
#[verifier::external_body]
fn fresh_hasher() -> (hasher: ContentHasher)
    ensures
        absorbed(hasher) == Seq::<u8>::empty(),
{
    ContentHasher { state: sha2::Sha256::new() }
}

/// `Digest::update`: the hasher takes in the bytes of `chunk`, behind those it
/// has already.
#[verifier::external_body]
fn absorb(hasher: &mut ContentHasher, chunk: &[u8])
    ensures
        absorbed(*final(hasher)) == absorbed(*old(hasher)) + chunk@,
{
    hasher.state.update(chunk);
}

/// `Digest::finalize`: the SHA-256 digest of all that was taken in, 32 bytes.
#[verifier::external_body]
fn finalize(hasher: ContentHasher) -> (digest: Vec<u8>)
    ensures
        digest@ == sha256(absorbed(hasher)),
        digest@.len() == 32,
{
    hasher.state.finalize().to_vec()
}

/// One step of hashing a stream.
pub enum Fed {
    /// The hasher took the bytes in; the stream goes on.
    More(ContentHasher),
    /// The stream has ended; this is the digest of all that came before.
    Done(Vec<u8>),
}

impl ContentHasher {
    /// A hasher for a new stream.
    pub fn new() -> (hasher: Self)
        ensures
            absorbed(hasher) == Seq::<u8>::empty(),
    {
        fresh_hasher()
    }

    /// Takes one read of a stream: `buffer` is what was read into and `read`
    /// how many bytes the read gave (`None` where it failed). A read of at
    /// least one byte is taken in and the stream goes on. A read of nothing, a
    /// failed read, or a count beyond the buffer ends the stream, and the
    /// digest of what was taken in so far comes back.
    pub fn feed(self, buffer: &[u8], read: Option<usize>) -> (r: Fed)
        ensures
            match r {
                Fed::More(next) => read matches Some(n) && 0 < n <= buffer@.len() && absorbed(next)
                    == absorbed(self) + buffer@.take(n as int),
                Fed::Done(digest) => !(read matches Some(n) && 0 < n <= buffer@.len()) && digest@
                    == sha256(absorbed(self)) && digest@.len() == 32,
            },
    {
        match read {
            Some(n) => {
                if 0 < n && n <= buffer.len() {
                    let mut next = self;
                    let part = vstd::slice::slice_subrange(buffer, 0, n);
                    assert(part@ =~= buffer@.take(n as int));
                    absorb(&mut next, part);
                    Fed::More(next)
                } else {
                    Fed::Done(finalize(self))
                }
            },
            None => Fed::Done(finalize(self)),
        }
    }
}

/// The bytes of all chunks, one chunk after the other.
pub open spec fn joined_bytes(chunks: Seq<Vec<u8>>) -> Seq<u8>
    decreases chunks.len(),
{
    if chunks.len() == 0 {
        Seq::empty()
    } else {
        joined_bytes(chunks.drop_last()) + chunks.last()@
    }
}

/// The digest of a content that comes in chunks: that of the chunks' bytes
/// taken together, however they are cut.
pub fn digest_chunks(chunks: &Vec<Vec<u8>>) -> (digest: Vec<u8>)
    ensures
        digest@ == sha256(joined_bytes(chunks@)),
        digest@.len() == 32,
{
    let mut hasher = ContentHasher::new();
    let mut i: usize = 0;
    assert(chunks@.take(0) =~= Seq::<Vec<u8>>::empty());
    while i < chunks.len()
        invariant
            i <= chunks.len(),
            absorbed(hasher) == joined_bytes(chunks@.take(i as int)),
        decreases chunks.len() - i,
    {
        assert(chunks@.take(i + 1).drop_last() == chunks@.take(i as int));
        absorb(&mut hasher, chunks[i].as_slice());
        i += 1;
    }
    assert(chunks@.take(chunks.len() as int) == chunks@);
    finalize(hasher)
}

/// Whether two digests are the same.
pub fn file_hash_equal(a: &Vec<u8>, b: &Vec<u8>) -> (r: bool)
    ensures
        r == (a@ == b@),
{
    if a.len() != b.len() {
        return false;
    }
    let mut i: usize = 0;
    while i < a.len()
        invariant
            i <= a.len(),
            a.len() == b.len(),
            forall|k: int| 0 <= k < i ==> a@[k] == b@[k],
        decreases a.len() - i,
    {
        if a[i] != b[i] {
            return false;
        }
        i += 1;
    }
    assert(a@ =~= b@);
    true
}

/// Whether an asset is copied: it is, unless a file stands at its destination
/// whose digest is that of the source.
pub open spec fn copy_needed(destination: Option<Seq<u8>>, source: Seq<u8>) -> bool {
    match destination {
        Some(digest) => digest != source,
        None => true,
    }
}

/// Whether an asset is copied. `destination` is the digest of the file at the
/// destination, `None` where there is no such file.
pub fn asset_needs_copy(destination: Option<&Vec<u8>>, source: &Vec<u8>) -> (r: bool)
    ensures
        r == copy_needed(
            match destination {
                Some(d) => Some(d@),
                None => None,
            },
            source@,
        ),
{
    match destination {
        Some(digest) => !file_hash_equal(digest, source),
        None => true,
    }
}

/// An asset whose destination holds the same bytes is not copied.
pub proof fn lemma_same_content_needs_no_copy(content: Seq<u8>)
    ensures
        !copy_needed(Some(sha256(content)), sha256(content)),
{
}

} // verus!
