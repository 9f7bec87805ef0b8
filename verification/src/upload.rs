//! Upload sessions: content that a client is still sending, staged apart from
//! the blob store until it is finalized.

use std::collections::HashMap;
use vstd::prelude::*;
use crate::digest::{sha256, Digest};
use crate::store::{publish_effect, BlobMetadata, BlobStore, Staging};

verus! {

/// Why an upload request failed.
#[derive(Clone, Copy, Debug, PartialEq, Eq, Structural)]
pub enum UploadError {
    /// No open session has the id.
    SessionNotFound,
    /// The staged bytes do not hash to the claimed digest.
    DigestMismatch,
    /// The id drawn for a new session is already taken.
    SessionIdInUse,
}

/// A session as its client sees it: the id and the bytes received so far.
#[derive(Clone, Copy, Debug, PartialEq, Eq, Structural)]
pub struct UploadSession {
    pub id: u128,
    pub written: u64,
}

/// `uuid::Uuid::new_v4`, as a number: 128 bits of which 122 are random.
/// Nothing is promised of the value.
#[verifier::external_body]
fn random_session_id() -> (id: u128) {
    uuid::Uuid::new_v4().as_u128()
}

struct Session {
    staging: Staging,
    touched: u64,
}

/// Whether a session last touched at `touched` has been idle for more than
/// `max_idle` when the clock shows `clock`.
pub open spec fn is_idle(clock: u64, touched: u64, max_idle: u64) -> bool {
    clock - touched > max_idle
}

/// The sessions that a reaping with `max_idle` leaves open.
pub open spec fn survivors(touched: Map<u128, u64>, clock: u64, max_idle: u64) -> Set<u128> {
    Set::new(|id: u128| touched.dom().contains(id) && !is_idle(clock, touched[id], max_idle))
}

/// The `k`-th id tried for a new session when `start` was drawn: the ids
/// follow each other and wrap round after the largest.
pub open spec fn probe(start: u128, k: nat) -> u128 {
    if start + k <= u128::MAX {
        (start + k) as u128
    } else {
        (start + k - u128::MAX - 1) as u128
    }
}

/// Whether `id` is the first id from `start` on that is not in `taken`.
pub open spec fn is_first_free(taken: Set<u128>, start: u128, id: u128) -> bool {
    &&& !taken.contains(id)
    &&& exists|k: nat|
        k <= taken.len() && id == #[trigger] probe(start, k) && forall|j: nat|
            j < k ==> taken.contains(#[trigger] probe(start, j))
}

/// As many ids in a row as are all taken, so many are taken at least.
proof fn lemma_probes_fit(taken: Set<u128>, start: u128, count: nat)
    requires
        taken.finite(),
        count <= 0x1_0000_0000_0000_0000,
        forall|j: nat| j < count ==> taken.contains(#[trigger] probe(start, j)),
    ensures
        count <= taken.len(),
    decreases count,
{
    if count > 0 {
        let last = probe(start, (count - 1) as nat);
        assert forall|j: nat| j < count - 1 implies taken.remove(last).contains(
            #[trigger] probe(start, j),
        ) by {
            assert(probe(start, j) != last);
        }
        lemma_probes_fit(taken.remove(last), start, (count - 1) as nat);
    }
}

/// The open sessions, what each has staged and when each was last touched.
pub struct UploadManager {
    sessions: HashMap<u128, Session>,
    /// The ids given out since the last reaping; every open id is among them.
    opened: Vec<u128>,
    clock: u64,
}

impl View for UploadManager {
    type V = Map<u128, Seq<u8>>;

    /// The staged bytes of each open session, by session id.
    closed spec fn view(&self) -> Map<u128, Seq<u8>> {
        Map::new(
            |id: u128| self.sessions@.contains_key(id),
            |id: u128| self.sessions@[id].staging@,
        )
    }
}

impl UploadManager {
    /// The time the manager was last told.
    pub closed spec fn clock(&self) -> u64 {
        self.clock
    }

    /// When each open session was opened or last written to.
    pub closed spec fn touched(&self) -> Map<u128, u64> {
        Map::new(|id: u128| self.sessions@.contains_key(id), |id: u128| self.sessions@[id].touched)
    }

    /// The manager knows every open session, and none was touched in the future.
    pub closed spec fn wf(&self) -> bool {
        &&& forall|id: u128| #[trigger]
            self.sessions@.contains_key(id) ==> self.opened@.contains(id)
        &&& forall|id: u128| #[trigger]
            self.sessions@.contains_key(id) ==> self.sessions@[id].touched <= self.clock
    }

    /// A manager with no open session, at time zero.
    pub fn new() -> (m: UploadManager)
        ensures
            m.wf(),
            m@ == Map::<u128, Seq<u8>>::empty(),
            m.touched() == Map::<u128, u64>::empty(),
            m.clock() == 0,
    {
        let m = UploadManager { sessions: HashMap::new(), opened: Vec::new(), clock: 0 };
        assert(m@ =~= Map::<u128, Seq<u8>>::empty());
        assert(m.touched() =~= Map::<u128, u64>::empty());
        m
    }

    /// Whether a session with this id is open.
    pub fn is_open(&self, id: u128) -> (r: bool)
        ensures
            r == self@.dom().contains(id),
    {
        self.sessions.contains_key(&id)
    }

    /// What session `id` has staged so far, if it is open.
    pub fn staged(&self, id: u128) -> (r: Option<&Vec<u8>>)
        ensures
            match r {
                Some(bytes) => self@.dom().contains(id) && bytes@ == self@[id],
                None => !self@.dom().contains(id),
            },
    {
        match self.sessions.get(&id) {
            Some(session) => Some(session.staging.bytes()),
            None => None,
        }
    }

    /// Tells the manager the time; its clock never runs backwards.
    pub fn advance(&mut self, now: u64)
        requires
            old(self).wf(),
        ensures
            final(self).wf(),
            final(self).clock() == if now > old(self).clock() {
                now
            } else {
                old(self).clock()
            },
            final(self)@ == old(self)@,
            final(self).touched() == old(self).touched(),
    {
        if now > self.clock {
            self.clock = now;
        }
        assert(self@ =~= old(self)@);
        assert(self.touched() =~= old(self).touched());
    }

    /// Opens a session under `id`, which is free.
    fn open_free(&mut self, id: u128) -> (s: UploadSession)
        requires
            old(self).wf(),
            !old(self)@.dom().contains(id),
        ensures
            final(self).wf(),
            final(self).clock() == old(self).clock(),
            s == (UploadSession { id, written: 0 }),
            final(self)@ == old(self)@.insert(id, Seq::<u8>::empty()),
            final(self).touched() == old(self).touched().insert(id, old(self).clock()),
    {
        self.sessions.insert(id, Session { staging: Staging::new(), touched: self.clock });
        self.opened.push(id);
        proof {
            assert(self@ =~= old(self)@.insert(id, Seq::<u8>::empty()));
            assert(self.touched() =~= old(self).touched().insert(id, old(self).clock()));
            assert(self.opened@.last() == id);
            assert forall|other: u128| #[trigger]
                self.sessions@.contains_key(other) implies self.opened@.contains(other) by {
                if other != id {
                    let k = choose|k: int|
                        0 <= k < old(self).opened@.len() && old(self).opened@[k] == other;
                    assert(self.opened@[k] == other);
                }
            }
        }
        UploadSession { id, written: 0 }
    }

    /// Opens a session under `id` with nothing staged, unless the id is taken.
    pub fn open_session(&mut self, id: u128) -> (r: Result<UploadSession, UploadError>)
        requires
            old(self).wf(),
        ensures
            final(self).wf(),
            final(self).clock() == old(self).clock(),
            match r {
                Ok(s) => !old(self)@.dom().contains(id) && s == (UploadSession { id, written: 0 })
                    && final(self)@ == old(self)@.insert(id, Seq::<u8>::empty())
                    && final(self).touched() == old(self).touched().insert(id, old(self).clock()),
                Err(e) => old(self)@.dom().contains(id) && e == UploadError::SessionIdInUse
                    && final(self)@ == old(self)@ && final(self).touched() == old(self).touched(),
            },
    {
        if self.sessions.contains_key(&id) {
            return Err(UploadError::SessionIdInUse);
        }
        Ok(self.open_free(id))
    }

    /// Opens a session under `drawn` if that id is free, and else under the
    /// first free id that follows it.
    pub fn begin_from(&mut self, drawn: u128) -> (s: UploadSession)
        requires
            old(self).wf(),
        ensures
            final(self).wf(),
            final(self).clock() == old(self).clock(),
            is_first_free(old(self)@.dom(), drawn, s.id),
            s.written == 0,
            final(self)@ == old(self)@.insert(s.id, Seq::<u8>::empty()),
            final(self).touched() == old(self).touched().insert(s.id, old(self).clock()),
    {
        let limit = self.sessions.len();
        let mut id = drawn;
        let mut tried: usize = 0;
        proof {
            assert(self@.dom() =~= self.sessions@.dom());
        }
        while self.sessions.contains_key(&id)
            invariant
                tried <= limit,
                limit == self.sessions@.dom().len(),
                self.sessions@.dom().finite(),
                self.sessions@.dom() == self@.dom(),
                id == probe(drawn, tried as nat),
                forall|j: nat| j < tried ==> self.sessions@.dom().contains(#[trigger] probe(drawn, j)),
            decreases limit - tried,
        {
            proof {
                lemma_probes_fit(self.sessions@.dom(), drawn, (tried + 1) as nat);
            }
            tried += 1;
            id = if id == u128::MAX {
                0
            } else {
                id + 1
            };
        }
        self.open_free(id)
    }

    /// Opens a session under a freshly drawn random id, or under the first
    /// free id after it in the unlikely case that the drawn one is taken.
    ///
    /// Whatever id is drawn, a new session is opened with nothing staged,
    /// under an id that named no session before.
    pub fn begin(&mut self) -> (s: UploadSession)
        requires
            old(self).wf(),
        ensures
            final(self).wf(),
            final(self).clock() == old(self).clock(),
            !old(self)@.dom().contains(s.id),
            s.written == 0,
            final(self)@ == old(self)@.insert(s.id, Seq::<u8>::empty()),
            final(self).touched() == old(self).touched().insert(s.id, old(self).clock()),
    {
        let drawn = random_session_id();
        self.begin_from(drawn)
    }

    /// Appends `chunk` to what session `id` has staged and returns the new
    /// total number of staged bytes.
    pub fn append(&mut self, id: u128, chunk: &[u8]) -> (r: Result<u64, UploadError>)
        requires
            old(self).wf(),
        ensures
            final(self).wf(),
            final(self).clock() == old(self).clock(),
            match r {
                Ok(total) => old(self)@.dom().contains(id) && final(self)@ == old(self)@.insert(
                    id,
                    old(self)@[id] + chunk@,
                ) && total == old(self)@[id].len() + chunk@.len() && final(self).touched() == old(
                    self,
                ).touched().insert(id, old(self).clock()),
                Err(e) => !old(self)@.dom().contains(id) && e == UploadError::SessionNotFound
                    && final(self)@ == old(self)@ && final(self).touched() == old(self).touched(),
            },
    {
        match self.sessions.remove(&id) {
            None => {
                assert(self@ =~= old(self)@);
                assert(self.touched() =~= old(self).touched());
                assert(self.sessions@ =~= old(self).sessions@);
                Err(UploadError::SessionNotFound)
            },
            Some(session) => {
                let mut staging = session.staging;
                staging.write(chunk);
                let total = staging.len();
                self.sessions.insert(id, Session { staging, touched: self.clock });
                assert(self@ =~= old(self)@.insert(id, old(self)@[id] + chunk@));
                assert(self.touched() =~= old(self).touched().insert(id, old(self).clock()));
                assert forall|other: u128| #[trigger]
                    self.sessions@.contains_key(other) implies old(self).sessions@.contains_key(
                    other,
                ) by {}
                Ok(total)
            },
        }
    }

    /// Ends session `id`: publishes what it staged under `claimed` if the
    /// bytes hash to it. The session is gone afterwards, whatever the outcome.
    pub fn finalize(&mut self, id: u128, claimed: &Digest, store: &mut BlobStore) -> (r: Result<
        BlobMetadata,
        UploadError,
    >)
        requires
            old(self).wf(),
            old(store).wf(),
        ensures
            final(self).wf(),
            final(store).wf(),
            final(self).clock() == old(self).clock(),
            final(self)@ == old(self)@.remove(id),
            final(self).touched() == old(self).touched().remove(id),
            final(store)@ == finalize_effect(old(self)@, old(store)@, id, claimed@),
            match r {
                Ok(m) => finalize_failure(old(self)@, id, claimed@).is_none() && m.describes(
                    claimed@,
                    final(store)@[claimed@],
                ),
                Err(e) => finalize_failure(old(self)@, id, claimed@) == Some(e),
            },
    {
        let gone = self.sessions.remove(&id);
        proof {
            assert(self@ =~= old(self)@.remove(id));
            assert(self.touched() =~= old(self).touched().remove(id));
            assert forall|other: u128| #[trigger]
                self.sessions@.contains_key(other) implies old(self).sessions@.contains_key(
                other,
            ) by {}
        }
        match gone {
            None => Err(UploadError::SessionNotFound),
            Some(session) => match store.publish_from_staging(session.staging, claimed) {
                Ok(m) => Ok(m),
                Err(_) => Err(UploadError::DigestMismatch),
            },
        }
    }

    /// Drops session `id` and what it staged; says whether it was open.
    pub fn discard(&mut self, id: u128) -> (was_open: bool)
        requires
            old(self).wf(),
        ensures
            final(self).wf(),
            final(self).clock() == old(self).clock(),
            was_open == old(self)@.dom().contains(id),
            final(self)@ == old(self)@.remove(id),
            final(self).touched() == old(self).touched().remove(id),
    {
        let gone = self.sessions.remove(&id);
        proof {
            assert(self@ =~= old(self)@.remove(id));
            assert(self.touched() =~= old(self).touched().remove(id));
            assert forall|other: u128| #[trigger]
                self.sessions@.contains_key(other) implies old(self).sessions@.contains_key(
                other,
            ) by {}
        }
        gone.is_some()
    }

    /// Drops every session that has been idle for more than `max_idle`, with
    /// what it staged, and keeps all others as they are.
    pub fn reap(&mut self, max_idle: u64)
        requires
            old(self).wf(),
        ensures
            final(self).wf(),
            final(self).clock() == old(self).clock(),
            final(self)@ == old(self)@.restrict(
                survivors(old(self).touched(), old(self).clock(), max_idle),
            ),
            final(self).touched() == old(self).touched().restrict(
                survivors(old(self).touched(), old(self).clock(), max_idle),
            ),
    {
        let mut kept: Vec<u128> = Vec::new();
        let mut i: usize = 0;
        while i < self.opened.len()
            invariant
                i <= self.opened@.len(),
                self.opened@ == old(self).opened@,
                self.clock == old(self).clock,
                old(self).wf(),
                forall|id: u128| #[trigger]
                    self.sessions@.contains_key(id) ==> old(self).sessions@.contains_key(id)
                        && self.sessions@[id] == old(self).sessions@[id],
                forall|id: u128| #[trigger]
                    old(self).sessions@.contains_key(id) && !is_idle(
                        self.clock,
                        old(self).sessions@[id].touched,
                        max_idle,
                    ) ==> self.sessions@.contains_key(id),
                forall|k: int|
                    0 <= k < i && old(self).sessions@.contains_key(#[trigger] self.opened@[k])
                        ==> (if is_idle(
                        self.clock,
                        old(self).sessions@[self.opened@[k]].touched,
                        max_idle,
                    ) {
                        !self.sessions@.contains_key(self.opened@[k])
                    } else {
                        kept@.contains(self.opened@[k])
                    }),
            decreases self.opened@.len() - i,
        {
            let id = self.opened[i];
            let idle = match self.sessions.get(&id) {
                Some(session) => Some(self.clock - session.touched > max_idle),
                None => None,
            };
            let ghost kept_before = kept@;
            match idle {
                Some(true) => {
                    self.sessions.remove(&id);
                },
                Some(false) => {
                    kept.push(id);
                    assert(kept@.last() == id);
                },
                None => {},
            }
            proof {
                assert forall|k: int|
                    0 <= k < i + 1 && old(self).sessions@.contains_key(
                        #[trigger] self.opened@[k],
                    ) implies (if is_idle(
                    self.clock,
                    old(self).sessions@[self.opened@[k]].touched,
                    max_idle,
                ) {
                    !self.sessions@.contains_key(self.opened@[k])
                } else {
                    kept@.contains(self.opened@[k])
                }) by {
                    let other = self.opened@[k];
                    if k < i && !is_idle(self.clock, old(self).sessions@[other].touched, max_idle) {
                        let at = choose|at: int| 0 <= at < kept_before.len() && kept_before[at] == other;
                        assert(kept@[at] == other);
                    }
                }
            }
            i += 1;
        }
        proof {
            assert forall|id: u128| #[trigger]
                self.sessions@.contains_key(id) implies kept@.contains(id) by {
                let k = choose|k: int| 0 <= k < self.opened@.len() && self.opened@[k] == id;
                assert(old(self).sessions@.contains_key(self.opened@[k]));
            }
            assert forall|id: u128|
                old(self).sessions@.contains_key(id) && is_idle(
                    self.clock,
                    old(self).sessions@[id].touched,
                    max_idle,
                ) implies !self.sessions@.contains_key(id) by {
                let k = choose|k: int| 0 <= k < self.opened@.len() && self.opened@[k] == id;
                assert(old(self).sessions@.contains_key(self.opened@[k]));
            }
        }
        self.opened = kept;
        proof {
            let left = survivors(old(self).touched(), old(self).clock(), max_idle);
            assert(self@ =~= old(self)@.restrict(left));
            assert(self.touched() =~= old(self).touched().restrict(left));
        }
    }
}

/// Why finalizing session `id` with the claim `claimed` fails, if it does.
pub open spec fn finalize_failure(
    sessions: Map<u128, Seq<u8>>,
    id: u128,
    claimed: Seq<u8>,
) -> Option<UploadError> {
    if !sessions.dom().contains(id) {
        Some(UploadError::SessionNotFound)
    } else if sha256(sessions[id]) != claimed {
        Some(UploadError::DigestMismatch)
    } else {
        None
    }
}

/// The blob store after session `id` is finalized with the claim `claimed`.
pub open spec fn finalize_effect(
    sessions: Map<u128, Seq<u8>>,
    store: Map<Seq<u8>, Seq<u8>>,
    id: u128,
    claimed: Seq<u8>,
) -> Map<Seq<u8>, Seq<u8>> {
    if sessions.dom().contains(id) {
        publish_effect(store, sessions[id], claimed)
    } else {
        store
    }
}

/// The sessions after `content` was appended to the freshly opened session `id`.
pub open spec fn uploaded(sessions: Map<u128, Seq<u8>>, id: u128, content: Seq<u8>) -> Map<
    u128,
    Seq<u8>,
> {
    let opened = sessions.insert(id, Seq::<u8>::empty());
    opened.insert(id, opened[id] + content)
}

/// Opening a session, appending `content` and finalizing with the digest of
/// `content` succeeds, and the store then holds `content` under that digest,
/// so the reported size and the size found by a later lookup are both the
/// length of `content`. The store must not already hold other bytes under
/// the digest.
pub proof fn lemma_upload_publishes(
    sessions: Map<u128, Seq<u8>>,
    store: Map<Seq<u8>, Seq<u8>>,
    id: u128,
    content: Seq<u8>,
)
    requires
        !sessions.dom().contains(id),
        !store.dom().contains(sha256(content)) || store[sha256(content)] == content,
    ensures
        finalize_failure(uploaded(sessions, id, content), id, sha256(content)).is_none(),
        finalize_effect(uploaded(sessions, id, content), store, id, sha256(content)).dom().contains(
            sha256(content),
        ),
        finalize_effect(uploaded(sessions, id, content), store, id, sha256(content))[sha256(
            content,
        )] == content,
{
    assert(uploaded(sessions, id, content)[id] =~= content);
}

/// Opening a session, appending `content` and finalizing with a digest that
/// `content` does not hash to fails with a digest mismatch, and leaves the
/// store as it was: a digest that was not stored before is not stored after.
pub proof fn lemma_mismatch_publishes_nothing(
    sessions: Map<u128, Seq<u8>>,
    store: Map<Seq<u8>, Seq<u8>>,
    id: u128,
    content: Seq<u8>,
    claimed: Seq<u8>,
)
    requires
        !sessions.dom().contains(id),
        sha256(content) != claimed,
    ensures
        finalize_failure(uploaded(sessions, id, content), id, claimed) == Some(
            UploadError::DigestMismatch,
        ),
        finalize_effect(uploaded(sessions, id, content), store, id, claimed) == store,
{
    assert(uploaded(sessions, id, content)[id] =~= content);
}

/// Two sessions that upload the same content and finalize with its digest
/// both succeed, and the second leaves the store exactly as the first left
/// it: one blob under the digest.
pub proof fn lemma_publish_is_idempotent(
    sessions: Map<u128, Seq<u8>>,
    store: Map<Seq<u8>, Seq<u8>>,
    first: u128,
    second: u128,
    content: Seq<u8>,
)
    requires
        first != second,
        !sessions.dom().contains(first),
        !sessions.dom().contains(second),
    ensures
        ({
            let digest = sha256(content);
            let both = uploaded(uploaded(sessions, first, content), second, content);
            let store_once = finalize_effect(both, store, first, digest);
            let store_twice = finalize_effect(both.remove(first), store_once, second, digest);
            &&& finalize_failure(both, first, digest).is_none()
            &&& finalize_failure(both.remove(first), second, digest).is_none()
            &&& store_twice == store_once
            &&& store_once.dom().contains(digest)
        }),
{
    let both = uploaded(uploaded(sessions, first, content), second, content);
    assert(both[first] =~= content);
    assert(both[second] =~= content);
    assert(both.remove(first)[second] =~= content);
}

/// A session that was finalized is gone, whatever the outcome: appending to
/// it or finalizing it again finds no session.
pub proof fn lemma_finalized_session_is_gone(
    sessions: Map<u128, Seq<u8>>,
    id: u128,
    claimed: Seq<u8>,
)
    ensures
        !sessions.remove(id).dom().contains(id),
        finalize_failure(sessions.remove(id), id, claimed) == Some(UploadError::SessionNotFound),
{
}

} // verus!
