//! The blob store: finished content, kept once under the digest of its bytes.

use vstd::prelude::*;
use crate::digest::{sha256, Digest, Hasher};

verus! {

/// The media type reported for every blob.
pub const BLOB_CONTENT_TYPE: &'static str = "application/octet-stream";

/// Why the store turned a request down.
#[derive(Clone, Copy, Debug, PartialEq, Eq, Structural)]
pub enum StoreError {
    /// Nothing is stored under the digest.
    NotFound,
    /// The staged bytes do not hash to the claimed digest.
    DigestMismatch,
}

/// What the store reports about one blob.
#[derive(Clone, Copy, Debug)]
pub struct BlobMetadata {
    digest: Digest,
    size: u64,
}

impl BlobMetadata {
    /// The digest the blob is stored under.
    pub closed spec fn spec_digest(&self) -> Seq<u8> {
        self.digest@
    }

    /// The number of bytes in the blob.
    pub closed spec fn spec_size(&self) -> nat {
        self.size as nat
    }

    /// Whether this describes content `content` stored under `digest`.
    pub open spec fn describes(&self, digest: Seq<u8>, content: Seq<u8>) -> bool {
        self.spec_digest() == digest && self.spec_size() == content.len()
    }

    /// The digest the blob is stored under.
    pub fn digest(&self) -> (d: Digest)
        ensures
            d@ == self.spec_digest(),
    {
        self.digest
    }

    /// The number of bytes in the blob.
    pub fn size(&self) -> (n: u64)
        ensures
            n == self.spec_size(),
    {
        self.size
    }

    /// The media type of the blob.
    pub fn content_type(&self) -> (t: &'static str)
        ensures
            t@ == BLOB_CONTENT_TYPE@,
    {
        BLOB_CONTENT_TYPE
    }
}

/// The private staging area of one upload: the bytes received so far, in
/// the order they came, hashed as they come.
pub struct Staging {
    bytes: Vec<u8>,
    hasher: Hasher,
}

impl View for Staging {
    type V = Seq<u8>;

    /// The bytes received so far.
    closed spec fn view(&self) -> Seq<u8> {
        self.bytes@
    }
}

impl Staging {
    #[verifier::type_invariant]
    spec fn hashed_in_step(self) -> bool {
        self.hasher@ == self.bytes@
    }

    /// A staging area that holds nothing.
    pub fn new() -> (staging: Staging)
        ensures
            staging@ == Seq::<u8>::empty(),
    {
        Staging { bytes: Vec::new(), hasher: Hasher::new() }
    }

    /// The number of bytes received so far.
    pub fn len(&self) -> (n: u64)
        ensures
            n == self@.len(),
    {
        self.bytes.len() as u64
    }

    /// The bytes received so far.
    pub fn bytes(&self) -> (bytes: &Vec<u8>)
        ensures
            bytes@ == self@,
    {
        &self.bytes
    }

    /// Appends `chunk` to what was received before.
    pub fn write(&mut self, chunk: &[u8])
        ensures
            final(self)@ == old(self)@ + chunk@,
    {
        let mut taken = Staging::new();
        std::mem::swap(self, &mut taken);
        proof {
            use_type_invariant(&taken);
        }
        let Staging { mut bytes, mut hasher } = taken;
        let ghost before = bytes@;
        let mut i: usize = 0;
        while i < chunk.len()
            invariant
                i <= chunk@.len(),
                bytes@ == before + chunk@.subrange(0, i as int),
            decreases chunk@.len() - i,
        {
            bytes.push(chunk[i]);
            assert(bytes@ =~= before + chunk@.subrange(0, i + 1));
            i += 1;
        }
        assert(chunk@.subrange(0, i as int) =~= chunk@);
        hasher.update(chunk);
        *self = Staging { bytes, hasher };
    }
}

struct Blob {
    digest: Digest,
    content: Vec<u8>,
}

/// The mapping that a list of blobs stands for; a later entry wins.
spec fn blobs_map(blobs: Seq<Blob>) -> Map<Seq<u8>, Seq<u8>>
    decreases blobs.len(),
{
    if blobs.len() == 0 {
        Map::empty()
    } else {
        blobs_map(blobs.drop_last()).insert(blobs.last().digest@, blobs.last().content@)
    }
}

proof fn lemma_blobs_map_absent(blobs: Seq<Blob>, digest: Seq<u8>)
    requires
        forall|i: int| 0 <= i < blobs.len() ==> blobs[i].digest@ != digest,
    ensures
        !blobs_map(blobs).dom().contains(digest),
    decreases blobs.len(),
{
    if blobs.len() > 0 {
        lemma_blobs_map_absent(blobs.drop_last(), digest);
    }
}

proof fn lemma_blobs_map_present(blobs: Seq<Blob>, at: int)
    requires
        0 <= at < blobs.len(),
        forall|i: int| at < i < blobs.len() ==> blobs[i].digest@ != blobs[at].digest@,
    ensures
        blobs_map(blobs).dom().contains(blobs[at].digest@),
        blobs_map(blobs)[blobs[at].digest@] == blobs[at].content@,
    decreases blobs.len(),
{
    if at < blobs.len() - 1 {
        lemma_blobs_map_present(blobs.drop_last(), at);
    }
}

/// Finished blobs, each under the digest of its own bytes.
pub struct BlobStore {
    blobs: Vec<Blob>,
}

impl View for BlobStore {
    type V = Map<Seq<u8>, Seq<u8>>;

    /// The stored content, by digest.
    closed spec fn view(&self) -> Map<Seq<u8>, Seq<u8>> {
        blobs_map(self.blobs@)
    }
}

impl BlobStore {
    /// Every stored blob hashes to the digest it is stored under.
    pub open spec fn wf(&self) -> bool {
        forall|d: Seq<u8>| #[trigger] self@.dom().contains(d) ==> sha256(self@[d]) == d
    }

    /// An empty store.
    pub fn new() -> (store: BlobStore)
        ensures
            store@ == Map::<Seq<u8>, Seq<u8>>::empty(),
            store.wf(),
    {
        BlobStore { blobs: Vec::new() }
    }

    /// Position of the blob stored under `digest`, if there is one.
    fn find(&self, digest: &Digest) -> (r: Option<usize>)
        ensures
            match r {
                Some(i) => i < self.blobs@.len() && self@.dom().contains(digest@)
                    && self@[digest@] == self.blobs@[i as int].content@,
                None => !self@.dom().contains(digest@),
            },
    {
        let mut i: usize = self.blobs.len();
        while i > 0
            invariant
                i <= self.blobs@.len(),
                forall|k: int| i <= k < self.blobs@.len() ==> self.blobs@[k].digest@ != digest@,
            decreases i,
        {
            i -= 1;
            if self.blobs[i].digest.same(digest) {
                proof {
                    lemma_blobs_map_present(self.blobs@, i as int);
                }
                return Some(i);
            }
        }
        proof {
            lemma_blobs_map_absent(self.blobs@, digest@);
        }
        None
    }

    /// Metadata of the blob under `digest`; `None` when there is none.
    pub fn get_metadata(&self, digest: &Digest) -> (r: Option<BlobMetadata>)
        ensures
            match r {
                Some(m) => self@.dom().contains(digest@) && m.describes(digest@, self@[digest@]),
                None => !self@.dom().contains(digest@),
            },
    {
        match self.find(digest) {
            Some(i) => Some(BlobMetadata { digest: *digest, size: self.blobs[i].content.len() as u64 }),
            None => None,
        }
    }

    /// The bytes of the blob under `digest`, from their start.
    pub fn open_read(&self, digest: &Digest) -> (r: Result<&Vec<u8>, StoreError>)
        ensures
            match r {
                Ok(content) => self@.dom().contains(digest@) && content@ == self@[digest@],
                Err(e) => !self@.dom().contains(digest@) && e == StoreError::NotFound,
            },
    {
        match self.find(digest) {
            Some(i) => Ok(&self.blobs[i].content),
            None => Err(StoreError::NotFound),
        }
    }

    /// Publishes staged bytes under the digest the client claims for them.
    ///
    /// The bytes are hashed and the hash compared with the claim. On a
    /// mismatch nothing changes. On a match the content becomes visible under
    /// the digest in one step; where the digest is already stored, the store
    /// keeps what it has and reports that blob.
    pub fn publish_from_staging(&mut self, staging: Staging, claimed: &Digest) -> (r: Result<
        BlobMetadata,
        StoreError,
    >)
        requires
            old(self).wf(),
        ensures
            final(self).wf(),
            final(self)@ == publish_effect(old(self)@, staging@, claimed@),
            match r {
                Ok(m) => sha256(staging@) == claimed@ && m.describes(
                    claimed@,
                    final(self)@[claimed@],
                ),
                Err(e) => sha256(staging@) != claimed@ && e == StoreError::DigestMismatch,
            },
    {
        proof {
            use_type_invariant(&staging);
        }
        let Staging { bytes, hasher } = staging;
        let actual = hasher.finalize();
        if !actual.same(claimed) {
            return Err(StoreError::DigestMismatch);
        }
        match self.find(claimed) {
            Some(i) => Ok(BlobMetadata { digest: *claimed, size: self.blobs[i].content.len() as u64 }),
            None => {
                let size = bytes.len() as u64;
                let ghost before = self.blobs@;
                self.blobs.push(Blob { digest: *claimed, content: bytes });
                assert(self.blobs@.drop_last() =~= before);
                Ok(BlobMetadata { digest: *claimed, size })
            },
        }
    }
}

/// The store after an attempt to publish `staged` under `claimed`.
pub open spec fn publish_effect(
    before: Map<Seq<u8>, Seq<u8>>,
    staged: Seq<u8>,
    claimed: Seq<u8>,
) -> Map<Seq<u8>, Seq<u8>> {
    if sha256(staged) == claimed && !before.dom().contains(claimed) {
        before.insert(claimed, staged)
    } else {
        before
    }
}

} // verus!
