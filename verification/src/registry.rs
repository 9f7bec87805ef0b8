//! The registry's request handling: what each request of the distribution
//! protocol does to the blob store and the upload sessions, and the status
//! and headers that answer it.

use vstd::prelude::*;
use vstd::string::*;
use crate::auth::{secret_text, AuthProvider, UnverifiedCredentials, ValidUser};
use vstd::arithmetic::power::pow;
use crate::digest::{canonical_text, canonical_value, hex_char, sha256, Digest};
use crate::store::{publish_effect, BlobStore, Staging};
use crate::upload::{survivors, UploadError, UploadManager};

verus! {

/// How many hyphens stand before place `i` of the text of a session id.
pub open spec fn hyphens_before(i: int) -> int {
    (if i > 8 {
        1int
    } else {
        0int
    }) + (if i > 13 {
        1int
    } else {
        0int
    }) + (if i > 18 {
        1int
    } else {
        0int
    }) + (if i > 23 {
        1int
    } else {
        0int
    })
}

/// The `j`-th of the 32 hex digits of a session id, the most significant first.
pub open spec fn uuid_digit(id: u128, j: int) -> char {
    hex_char((id as int / pow(16, (31 - j) as nat)) % 16)
}

/// The hyphenated lowercase text of a 128-bit session id: its 32 hex digits,
/// the most significant first, with a hyphen after the digits 8, 12, 16 and 20.
pub open spec fn uuid_text(id: u128) -> Seq<char> {
    Seq::new(
        36,
        |i: int|
            if i == 8 || i == 13 || i == 18 || i == 23 {
                '-'
            } else {
                uuid_digit(id, i - hyphens_before(i))
            },
    )
}

/// The value of a decimal digit; `None` for any other character.
pub open spec fn digit_value(c: char) -> Option<nat> {
    let n = c as u32 as int;
    if 48 <= n <= 57 {
        Some((n - 48) as nat)
    } else {
        None
    }
}

/// The number that a run of decimal digits spells; `None` where one of the
/// characters is no digit.
pub open spec fn digits_value(digits: Seq<char>) -> Option<nat>
    decreases digits.len(),
{
    if digits.len() == 0 {
        Some(0)
    } else {
        match (digits_value(digits.drop_last()), digit_value(digits.last())) {
            (Some(v), Some(d)) => Some(10 * v + d),
            _ => None,
        }
    }
}

/// The number that a header value spells: an optional `+`, then at least one
/// decimal digit, and a value that fits in 64 bits. `None` for anything else.
pub open spec fn decimal_value(text: Seq<char>) -> Option<u64> {
    let digits = if text.len() > 0 && text[0] == '+' {
        text.skip(1)
    } else {
        text
    };
    if digits.len() == 0 {
        None
    } else {
        match digits_value(digits) {
            Some(v) => if v <= u64::MAX {
                Some(v as u64)
            } else {
                None
            },
            None => None,
        }
    }
}

/// `uuid::Uuid`'s `Display`: the id in its hyphenated lowercase form.
#[verifier::external_body]
fn session_id_text(id: u128) -> (text: String)
    ensures
        text@ == uuid_text(id),
{
    uuid::Uuid::from_u128(id).to_string()
}

/// `str::parse::<u64>`: the number that the text spells, `None` where the
/// standard library refuses the text: where it is empty or a lone sign, holds
/// anything but digits after an optional `+`, or spells too large a number.
#[verifier::external_body]
fn parse_decimal(text: &str) -> (n: Option<u64>)
    ensures
        n == decimal_value(text@),
{
    text.parse::<u64>().ok()
}

/// The decimal digit for a value below ten.
pub open spec fn digit_char(d: nat) -> char {
    ((48 + d) as u8) as char
}

/// The decimal text of a number, without sign or leading zeros.
pub open spec fn decimal(n: nat) -> Seq<char>
    decreases n,
{
    if n < 10 {
        seq![digit_char(n)]
    } else {
        decimal(n / 10).push(digit_char(n % 10))
    }
}

fn digit_text(d: u64) -> (text: &'static str)
    requires
        d < 10,
    ensures
        text@ == seq![digit_char(d as nat)],
{
    proof {
        reveal_strlit("0");
        reveal_strlit("1");
        reveal_strlit("2");
        reveal_strlit("3");
        reveal_strlit("4");
        reveal_strlit("5");
        reveal_strlit("6");
        reveal_strlit("7");
        reveal_strlit("8");
        reveal_strlit("9");
    }
    let text = if d == 0 {
        "0"
    } else if d == 1 {
        "1"
    } else if d == 2 {
        "2"
    } else if d == 3 {
        "3"
    } else if d == 4 {
        "4"
    } else if d == 5 {
        "5"
    } else if d == 6 {
        "6"
    } else if d == 7 {
        "7"
    } else if d == 8 {
        "8"
    } else {
        "9"
    };
    assert(text@ =~= seq![digit_char(d as nat)]);
    text
}

/// Writes a number in decimal.
pub fn decimal_text(n: u64) -> (text: String)
    ensures
        text@ == decimal(n as nat),
    decreases n,
{
    if n < 10 {
        String::from_str(digit_text(n))
    } else {
        let mut text = decimal_text(n / 10);
        text.append(digit_text(n % 10));
        text
    }
}

/// A repository and an image name: the namespace an upload belongs to.
#[derive(Debug)]
pub struct ImageLocation {
    repository: String,
    image: String,
}

impl ImageLocation {
    /// The repository's name, as text.
    pub closed spec fn spec_repository(&self) -> Seq<char> {
        self.repository@
    }

    /// The image's name, as text.
    pub closed spec fn spec_image(&self) -> Seq<char> {
        self.image@
    }

    /// The location of image `image` in repository `repository`.
    pub fn new(repository: String, image: String) -> (location: ImageLocation)
        ensures
            location.spec_repository() == repository@,
            location.spec_image() == image@,
    {
        ImageLocation { repository, image }
    }

    /// The repository's name.
    pub fn repository(&self) -> (name: &str)
        ensures
            name@ == self.spec_repository(),
    {
        self.repository.as_str()
    }

    /// The image's name.
    pub fn image(&self) -> (name: &str)
        ensures
            name@ == self.spec_image(),
    {
        self.image.as_str()
    }
}

/// One response header.
#[derive(Debug)]
pub struct Header {
    pub name: String,
    pub value: String,
}

impl View for Header {
    type V = (Seq<char>, Seq<char>);

    open spec fn view(&self) -> (Seq<char>, Seq<char>) {
        (self.name@, self.value@)
    }
}

/// A response: its status and its headers in order. The body is always empty.
#[derive(Debug)]
pub struct Reply {
    pub status: u16,
    pub headers: Vec<Header>,
}

impl Reply {
    /// The headers as pairs of name and value.
    pub open spec fn header_views(&self) -> Seq<(Seq<char>, Seq<char>)> {
        self.headers@.map_values(|h: Header| h@)
    }

    /// Whether the reply has exactly this status and these headers.
    pub open spec fn is(&self, status: u16, headers: Seq<(Seq<char>, Seq<char>)>) -> bool {
        self.status == status && self.header_views() == headers
    }

    /// A reply with a status and no headers.
    pub fn new(status: u16) -> (r: Reply)
        ensures
            r.is(status, Seq::empty()),
    {
        let r = Reply { status, headers: Vec::new() };
        assert(r.header_views() =~= Seq::empty());
        r
    }

    /// Adds a header after those already there.
    pub fn push_header(&mut self, name: &str, value: String)
        ensures
            final(self).status == old(self).status,
            final(self).header_views() == old(self).header_views().push((name@, value@)),
    {
        self.headers.push(Header { name: String::from_str(name), value });
        assert(self.header_views() =~= old(self).header_views().push((name@, value@)));
    }
}

/// Why the registry turned a request down.
#[derive(Clone, Copy, Debug, PartialEq, Eq, Structural)]
pub enum RegistryError {
    /// The digest is not `sha256:` and 64 lowercase hex digits.
    InvalidDigest,
    /// The request asks for a byte range; only whole uploads are supported.
    RangeNotSupported,
    /// The final request does not declare a content length of zero.
    BadContentLength,
    /// No open upload session has the id.
    SessionNotFound,
    /// No blob is stored under the digest.
    BlobNotFound,
    /// The uploaded bytes do not hash to the digest given for them.
    DigestMismatch,
    /// The storage could not do its part.
    StorageFault,
}

impl RegistryError {
    /// The status that reports the error: 404 for an unknown session or blob, 500 for
    /// a storage fault, 400 for everything the client got wrong.
    pub open spec fn spec_status(&self) -> u16 {
        match *self {
            RegistryError::SessionNotFound => 404,
            RegistryError::BlobNotFound => 404,
            RegistryError::StorageFault => 500,
            _ => 400,
        }
    }

    /// The status that reports the error.
    pub fn status(&self) -> (code: u16)
        ensures
            code == self.spec_status(),
    {
        match self {
            RegistryError::SessionNotFound => 404,
            RegistryError::BlobNotFound => 404,
            RegistryError::StorageFault => 500,
            _ => 400,
        }
    }

    /// The response that reports the error: its status and no headers.
    pub fn into_reply(self) -> (r: Reply)
        ensures
            r.is(self.spec_status(), Seq::empty()),
    {
        Reply::new(self.status())
    }
}

/// The path under which upload session `id` of `location` is addressed.
pub open spec fn upload_location(location: &ImageLocation, id: u128) -> Seq<char> {
    "/v2/"@ + location.spec_repository() + "/"@ + location.spec_image() + "/uploads/"@ + uuid_text(
        id,
    )
}

/// The path under which upload session `uuid` of `location` is addressed.
pub fn mk_upload_location(location: &ImageLocation, uuid: u128) -> (path: String)
    ensures
        path@ == upload_location(location, uuid),
{
    let mut path = String::from_str("/v2/");
    path.append(location.repository());
    path.append("/");
    path.append(location.image());
    path.append("/uploads/");
    path.append(session_id_text(uuid).as_str());
    path
}

/// The state of an upload, as reported to its client.
#[derive(Debug)]
pub struct UploadState {
    pub location: ImageLocation,
    /// Bytes received so far; `None` right after the session was opened.
    pub completed: Option<u64>,
    pub upload: u128,
}

/// The headers that report an upload's state.
pub open spec fn upload_headers(state: &UploadState) -> Seq<(Seq<char>, Seq<char>)> {
    let common = seq![
        ("Location"@, upload_location(&state.location, state.upload)),
        ("Content-Length"@, decimal(0)),
        ("Docker-Upload-UUID"@, uuid_text(state.upload)),
    ];
    match state.completed {
        Some(n) => common.push(("Range"@, "0-"@ + decimal(n as nat))),
        None => common,
    }
}

impl UploadState {
    /// The response that reports the state: 202 for a session just opened,
    /// 204 with the received range once bytes were taken.
    pub fn into_reply(self) -> (r: Reply)
        ensures
            r.is(if self.completed.is_some() { 204u16 } else { 202u16 }, upload_headers(&self)),
    {
        let status: u16 = if self.completed.is_some() { 204 } else { 202 };
        let mut r = Reply::new(status);
        r.push_header("Location", mk_upload_location(&self.location, self.upload));
        r.push_header("Content-Length", decimal_text(0));
        r.push_header("Docker-Upload-UUID", session_id_text(self.upload));
        match self.completed {
            Some(n) => {
                let mut range = String::from_str("0-");
                range.append(decimal_text(n).as_str());
                r.push_header("Range", range);
            },
            None => {},
        }
        assert(r.header_views() =~= upload_headers(&self));
        r
    }
}

/// The challenge that asks a client for basic credentials for `realm`.
pub open spec fn challenge(realm: Seq<char>) -> Seq<char> {
    "Basic realm=\""@ + realm + "\""@
}

/// The headers that describe a stored blob.
pub open spec fn blob_headers(digest: Seq<u8>, content: Seq<u8>) -> Seq<(Seq<char>, Seq<char>)> {
    seq![
        ("Content-Length"@, decimal(content.len())),
        ("Docker-Content-Digest"@, canonical_text(digest)),
        ("Content-Type"@, "application/octet-stream"@),
    ]
}

/// The content length that a final request declares, if it declares one.
pub open spec fn declared_length(header: Option<&str>) -> Option<u64> {
    match header {
        Some(text) => decimal_value(text@),
        None => None,
    }
}

/// A registry: its realm, who may use it, what it stores and what is being
/// uploaded to it.
pub struct DockerRegistry<A: AuthProvider> {
    realm: String,
    auth_provider: A,
    storage: BlobStore,
    uploads: UploadManager,
}

impl<A: AuthProvider> DockerRegistry<A> {
    /// The realm named in challenges.
    pub closed spec fn realm(&self) -> Seq<char> {
        self.realm@
    }

    /// Who decides on credentials.
    pub closed spec fn provider(&self) -> A {
        self.auth_provider
    }

    /// The published blobs, by digest.
    pub closed spec fn blobs(&self) -> Map<Seq<u8>, Seq<u8>> {
        self.storage@
    }

    /// What each open upload session has staged, by session id.
    pub closed spec fn sessions(&self) -> Map<u128, Seq<u8>> {
        self.uploads@
    }

    /// When each open upload session was opened or last written to.
    pub closed spec fn touched(&self) -> Map<u128, u64> {
        self.uploads.touched()
    }

    /// The time the registry was last told.
    pub closed spec fn clock(&self) -> u64 {
        self.uploads.clock()
    }

    /// Every published blob hashes to its digest, and the upload sessions are
    /// in order.
    pub closed spec fn wf(&self) -> bool {
        self.storage.wf() && self.uploads.wf()
    }

    /// Published blobs hash to their digests.
    pub proof fn lemma_blobs_are_addressed_by_content(&self, digest: Seq<u8>)
        requires
            self.wf(),
            self.blobs().dom().contains(digest),
        ensures
            sha256(self.blobs()[digest]) == digest,
    {
    }

    /// An empty registry for `realm`, guarded by `auth_provider`.
    pub fn new(realm: String, auth_provider: A) -> (registry: Self)
        ensures
            registry.wf(),
            registry.realm() == realm@,
            registry.provider() == auth_provider,
            registry.blobs() == Map::<Seq<u8>, Seq<u8>>::empty(),
            registry.sessions() == Map::<u128, Seq<u8>>::empty(),
            registry.touched() == Map::<u128, u64>::empty(),
            registry.clock() == 0,
    {
        DockerRegistry {
            realm,
            auth_provider,
            storage: BlobStore::new(),
            uploads: UploadManager::new(),
        }
    }

    /// Names the user behind `credentials` if the registry's provider accepts them.
    pub fn authenticate(&self, credentials: UnverifiedCredentials) -> (r: Option<ValidUser>)
        ensures
            match r {
                Some(user) => self.provider().accepts(
                    credentials.username@,
                    secret_text(credentials.password),
                ) && user@ == credentials.username@,
                None => !self.provider().accepts(
                    credentials.username@,
                    secret_text(credentials.password),
                ),
            },
    {
        match ValidUser::verify(&self.auth_provider, credentials) {
            Ok(user) => Some(user),
            Err(_) => None,
        }
    }

    /// The capability probe: 200 for credentials that the provider accepts,
    /// 401 otherwise, and the challenge either way.
    pub fn index_v2(&self, credentials: Option<UnverifiedCredentials>) -> (r: Reply)
        ensures
            r.is(
                match credentials {
                    Some(c) => if self.provider().accepts(c.username@, secret_text(c.password)) {
                        200u16
                    } else {
                        401u16
                    },
                    None => 401u16,
                },
                seq![("WWW-Authenticate"@, challenge(self.realm()))],
            ),
    {
        let status: u16 = match credentials {
            Some(creds) => if self.auth_provider.check_credentials(&creds) {
                200
            } else {
                401
            },
            None => 401,
        };
        let mut value = String::from_str("Basic realm=\"");
        value.append(self.realm.as_str());
        value.append("\"");
        let mut r = Reply::new(status);
        r.push_header("WWW-Authenticate", value);
        assert(r.header_views() =~= seq![("WWW-Authenticate"@, challenge(self.realm()))]);
        r
    }

    /// The existence check: 200 with the blob's length, digest and type where
    /// the digest is stored, 404 where it is not.
    pub fn blob_check(&self, digest_text: &str, _auth: &ValidUser) -> (r: Result<
        Reply,
        RegistryError,
    >)
        ensures
            match canonical_value(digest_text@) {
                None => r matches Err(e) && e == RegistryError::InvalidDigest,
                Some(d) => r matches Ok(reply) && if self.blobs().dom().contains(d) {
                    reply.is(200, blob_headers(d, self.blobs()[d]))
                } else {
                    reply.is(404, Seq::empty())
                },
            },
    {
        let digest = match Digest::parse(digest_text) {
            Ok(digest) => digest,
            Err(_) => {
                return Err(RegistryError::InvalidDigest);
            },
        };
        match self.storage.get_metadata(&digest) {
            Some(metadata) => {
                let mut r = Reply::new(200);
                r.push_header("Content-Length", decimal_text(metadata.size()));
                r.push_header("Docker-Content-Digest", digest.to_canonical_string());
                r.push_header("Content-Type", String::from_str(metadata.content_type()));
                assert(r.header_views() =~= blob_headers(digest@, self.blobs()[digest@]));
                Ok(r)
            },
            None => Ok(Reply::new(404)),
        }
    }

    /// The bytes of a published blob, from their start.
    pub fn blob_read(&self, digest: &Digest, _auth: &ValidUser) -> (r: Result<
        &Vec<u8>,
        RegistryError,
    >)
        ensures
            match r {
                Ok(content) => self.blobs().dom().contains(digest@) && content@
                    == self.blobs()[digest@],
                Err(e) => !self.blobs().dom().contains(digest@) && e
                    == RegistryError::BlobNotFound,
            },
    {
        match self.storage.open_read(digest) {
            Ok(content) => Ok(content),
            Err(_) => Err(RegistryError::BlobNotFound),
        }
    }

    /// Opens an upload session under a fresh random id.
    ///
    /// Whichever id is drawn, this succeeds: the session is new, has nothing
    /// staged, and its id named no session before.
    pub fn upload_new(&mut self, location: ImageLocation, _auth: &ValidUser) -> (r: Result<
        UploadState,
        RegistryError,
    >)
        requires
            old(self).wf(),
        ensures
            final(self).wf(),
            final(self).realm() == old(self).realm(),
            final(self).provider() == old(self).provider(),
            final(self).blobs() == old(self).blobs(),
            final(self).clock() == old(self).clock(),
            r matches Ok(state) && !old(self).sessions().dom().contains(state.upload)
                && final(self).sessions() == old(self).sessions().insert(
                state.upload,
                Seq::<u8>::empty(),
            ) && final(self).touched() == old(self).touched().insert(
                state.upload,
                old(self).clock(),
            ) && state.completed.is_none() && state.location == location,
    {
        let session = self.uploads.begin();
        Ok(UploadState { location, completed: None, upload: session.id })
    }

    /// Tells the registry the time; its clock never runs backwards.
    pub fn advance_clock(&mut self, now: u64)
        requires
            old(self).wf(),
        ensures
            final(self).wf(),
            final(self).realm() == old(self).realm(),
            final(self).provider() == old(self).provider(),
            final(self).blobs() == old(self).blobs(),
            final(self).sessions() == old(self).sessions(),
            final(self).touched() == old(self).touched(),
            final(self).clock() == if now > old(self).clock() {
                now
            } else {
                old(self).clock()
            },
    {
        self.uploads.advance(now)
    }

    /// Closes every upload session that has been idle for more than
    /// `max_idle` and drops what it staged; all else stays.
    pub fn reap_uploads(&mut self, max_idle: u64)
        requires
            old(self).wf(),
        ensures
            final(self).wf(),
            final(self).realm() == old(self).realm(),
            final(self).provider() == old(self).provider(),
            final(self).blobs() == old(self).blobs(),
            final(self).clock() == old(self).clock(),
            final(self).sessions() == old(self).sessions().restrict(
                survivors(old(self).touched(), old(self).clock(), max_idle),
            ),
            final(self).touched() == old(self).touched().restrict(
                survivors(old(self).touched(), old(self).clock(), max_idle),
            ),
    {
        self.uploads.reap(max_idle)
    }

    /// Takes the body of an upload: appends it to what session `upload` has
    /// staged and reports the total received. A request that names a byte
    /// range is refused before anything is touched.
    pub fn upload_add_chunk(
        &mut self,
        location: ImageLocation,
        upload: u128,
        has_range: bool,
        body: &[u8],
        _auth: &ValidUser,
    ) -> (r: Result<UploadState, RegistryError>)
        requires
            old(self).wf(),
        ensures
            final(self).wf(),
            final(self).realm() == old(self).realm(),
            final(self).provider() == old(self).provider(),
            final(self).blobs() == old(self).blobs(),
            final(self).clock() == old(self).clock(),
            final(self).sessions() == append_effect(old(self).sessions(), upload, has_range, body@),
            final(self).touched() == if r.is_ok() {
                old(self).touched().insert(upload, old(self).clock())
            } else {
                old(self).touched()
            },
            match r {
                Ok(state) => !has_range && old(self).sessions().dom().contains(upload)
                    && state.location == location && state.upload == upload && (
                state.completed matches Some(total) && total == old(
                    self,
                ).sessions()[upload].len() + body@.len()),
                Err(e) => e == (if has_range {
                    RegistryError::RangeNotSupported
                } else {
                    RegistryError::SessionNotFound
                }) && (has_range || !old(self).sessions().dom().contains(upload)),
            },
    {
        if has_range {
            return Err(RegistryError::RangeNotSupported);
        }
        match self.uploads.append(upload, body) {
            Ok(total) => Ok(UploadState { location, completed: Some(total), upload }),
            Err(_) => Err(RegistryError::SessionNotFound),
        }
    }

    /// Ends an upload whose final request declared the content length
    /// `declared`.
    ///
    /// A digest that is not canonical, or a declared length other than zero,
    /// is refused before anything is touched. Otherwise the session is closed,
    /// and what it staged is published if it hashes to the digest.
    pub fn finalize_declared(
        &mut self,
        upload: u128,
        digest_text: &str,
        declared: Option<u64>,
        _auth: &ValidUser,
    ) -> (r: Result<Reply, RegistryError>)
        requires
            old(self).wf(),
        ensures
            final(self).wf(),
            final(self).realm() == old(self).realm(),
            final(self).provider() == old(self).provider(),
            match finalize_outcome(old(self).sessions(), upload, digest_text@, declared) {
                Err(e) => r == Err::<Reply, RegistryError>(e),
                Ok(d) => r matches Ok(reply) && reply.is(
                    201,
                    seq![("Docker-Content-Digest"@, canonical_text(d))],
                ),
            },
            final(self).clock() == old(self).clock(),
            final(self).sessions() == sessions_after_finalize(
                old(self).sessions(),
                upload,
                digest_text@,
                declared,
            ),
            final(self).touched() == if finalize_is_admitted(digest_text@, declared) {
                old(self).touched().remove(upload)
            } else {
                old(self).touched()
            },
            final(self).blobs() == blobs_after_finalize(
                old(self).sessions(),
                old(self).blobs(),
                upload,
                digest_text@,
                declared,
            ),
    {
        let digest = match Digest::parse(digest_text) {
            Ok(digest) => digest,
            Err(_) => {
                return Err(RegistryError::InvalidDigest);
            },
        };
        match declared {
            Some(n) => {
                if n != 0 {
                    return Err(RegistryError::BadContentLength);
                }
            },
            None => {
                return Err(RegistryError::BadContentLength);
            },
        }
        match self.uploads.finalize(upload, &digest, &mut self.storage) {
            Ok(_) => {
                let mut r = Reply::new(201);
                r.push_header("Docker-Content-Digest", digest.to_canonical_string());
                assert(r.header_views() =~= seq![
                    ("Docker-Content-Digest"@, canonical_text(digest@)),
                ]);
                Ok(r)
            },
            Err(UploadError::SessionNotFound) => Err(RegistryError::SessionNotFound),
            Err(_) => Err(RegistryError::DigestMismatch),
        }
    }

    /// What a final request would publish, without changing anything: the
    /// staged bytes of session `upload` where the request would succeed, and
    /// `None` where it would fail.
    pub fn would_publish(
        &self,
        upload: u128,
        digest_text: &str,
        content_length: Option<&str>,
        _auth: &ValidUser,
    ) -> (r: Option<&Vec<u8>>)
        ensures
            match r {
                Some(content) => finalize_outcome(
                    self.sessions(),
                    upload,
                    digest_text@,
                    declared_length(content_length),
                ).is_ok() && content@ == self.sessions()[upload],
                None => finalize_outcome(
                    self.sessions(),
                    upload,
                    digest_text@,
                    declared_length(content_length),
                ).is_err(),
            },
    {
        let digest = match Digest::parse(digest_text) {
            Ok(digest) => digest,
            Err(_) => {
                return None;
            },
        };
        let declared = match content_length {
            Some(text) => parse_decimal(text),
            None => None,
        };
        match declared {
            Some(n) => {
                if n != 0 {
                    return None;
                }
            },
            None => {
                return None;
            },
        }
        match self.uploads.staged(upload) {
            Some(content) => {
                if Digest::compute(content.as_slice()).same(&digest) {
                    Some(content)
                } else {
                    None
                }
            },
            None => None,
        }
    }

    /// Takes in a blob that was published earlier, as when a store is read
    /// back: `content` becomes visible under the digest that `digest_text`
    /// spells if it hashes to it, and nothing changes otherwise. Says whether
    /// the content hashed to the digest.
    pub fn restore_blob(&mut self, content: &[u8], digest_text: &str) -> (held: bool)
        requires
            old(self).wf(),
        ensures
            final(self).wf(),
            final(self).realm() == old(self).realm(),
            final(self).provider() == old(self).provider(),
            final(self).sessions() == old(self).sessions(),
            final(self).touched() == old(self).touched(),
            final(self).clock() == old(self).clock(),
            final(self).blobs() == match canonical_value(digest_text@) {
                Some(d) => publish_effect(old(self).blobs(), content@, d),
                None => old(self).blobs(),
            },
            held == (canonical_value(digest_text@) == Some(sha256(content@))),
    {
        let digest = match Digest::parse(digest_text) {
            Ok(digest) => digest,
            Err(_) => {
                return false;
            },
        };
        let mut staging = Staging::new();
        staging.write(content);
        assert(Seq::<u8>::empty() + content@ =~= content@);
        self.storage.publish_from_staging(staging, &digest).is_ok()
    }

    /// Ends an upload: reads the declared content length from its header and
    /// goes on as [`Self::finalize_declared`] does.
    pub fn upload_finalize(
        &mut self,
        upload: u128,
        digest_text: &str,
        content_length: Option<&str>,
        _auth: &ValidUser,
    ) -> (r: Result<Reply, RegistryError>)
        requires
            old(self).wf(),
        ensures
            final(self).wf(),
            final(self).realm() == old(self).realm(),
            final(self).provider() == old(self).provider(),
            match finalize_outcome(
                old(self).sessions(),
                upload,
                digest_text@,
                declared_length(content_length),
            ) {
                Err(e) => r == Err::<Reply, RegistryError>(e),
                Ok(d) => r matches Ok(reply) && reply.is(
                    201,
                    seq![("Docker-Content-Digest"@, canonical_text(d))],
                ),
            },
            final(self).clock() == old(self).clock(),
            final(self).sessions() == sessions_after_finalize(
                old(self).sessions(),
                upload,
                digest_text@,
                declared_length(content_length),
            ),
            final(self).touched() == if finalize_is_admitted(
                digest_text@,
                declared_length(content_length),
            ) {
                old(self).touched().remove(upload)
            } else {
                old(self).touched()
            },
            final(self).blobs() == blobs_after_finalize(
                old(self).sessions(),
                old(self).blobs(),
                upload,
                digest_text@,
                declared_length(content_length),
            ),
    {
        let declared = match content_length {
            Some(text) => parse_decimal(text),
            None => None,
        };
        self.finalize_declared(upload, digest_text, declared, _auth)
    }
}

/// The sessions after a body was offered to session `id`.
pub open spec fn append_effect(
    sessions: Map<u128, Seq<u8>>,
    id: u128,
    has_range: bool,
    body: Seq<u8>,
) -> Map<u128, Seq<u8>> {
    if !has_range && sessions.dom().contains(id) {
        sessions.insert(id, sessions[id] + body)
    } else {
        sessions
    }
}

/// Whether a final request gets as far as the storage.
pub open spec fn finalize_is_admitted(digest_text: Seq<char>, declared: Option<u64>) -> bool {
    canonical_value(digest_text).is_some() && declared == Some(0u64)
}

/// How a final request ends: the digest it published under, or why it failed.
pub open spec fn finalize_outcome(
    sessions: Map<u128, Seq<u8>>,
    id: u128,
    digest_text: Seq<char>,
    declared: Option<u64>,
) -> Result<Seq<u8>, RegistryError> {
    match canonical_value(digest_text) {
        None => Err(RegistryError::InvalidDigest),
        Some(d) => if declared != Some(0u64) {
            Err(RegistryError::BadContentLength)
        } else if !sessions.dom().contains(id) {
            Err(RegistryError::SessionNotFound)
        } else if sha256(sessions[id]) != d {
            Err(RegistryError::DigestMismatch)
        } else {
            Ok(d)
        },
    }
}

/// The open sessions after a final request.
pub open spec fn sessions_after_finalize(
    sessions: Map<u128, Seq<u8>>,
    id: u128,
    digest_text: Seq<char>,
    declared: Option<u64>,
) -> Map<u128, Seq<u8>> {
    if finalize_is_admitted(digest_text, declared) {
        sessions.remove(id)
    } else {
        sessions
    }
}

/// The published blobs after a final request.
pub open spec fn blobs_after_finalize(
    sessions: Map<u128, Seq<u8>>,
    blobs: Map<Seq<u8>, Seq<u8>>,
    id: u128,
    digest_text: Seq<char>,
    declared: Option<u64>,
) -> Map<Seq<u8>, Seq<u8>> {
    if finalize_is_admitted(digest_text, declared) && sessions.dom().contains(id) {
        publish_effect(blobs, sessions[id], canonical_value(digest_text).unwrap())
    } else {
        blobs
    }
}

/// The sessions after a session was opened under `id` and sent `content` in
/// one request without a range.
pub open spec fn sessions_after_upload(
    sessions: Map<u128, Seq<u8>>,
    id: u128,
    content: Seq<u8>,
) -> Map<u128, Seq<u8>> {
    append_effect(sessions.insert(id, Seq::<u8>::empty()), id, false, content)
}

/// An upload that is opened, sent whole and finalized with the digest of its
/// content and a declared length of zero is answered with that digest, and the
/// registry then holds the content under it.
pub proof fn lemma_upload_is_published(
    sessions: Map<u128, Seq<u8>>,
    blobs: Map<Seq<u8>, Seq<u8>>,
    id: u128,
    content: Seq<u8>,
    digest_text: Seq<char>,
)
    requires
        !sessions.dom().contains(id),
        canonical_value(digest_text) == Some(sha256(content)),
        !blobs.dom().contains(sha256(content)) || blobs[sha256(content)] == content,
    ensures
        ({
            let staged = sessions_after_upload(sessions, id, content);
            let after = blobs_after_finalize(staged, blobs, id, digest_text, Some(0u64));
            &&& finalize_outcome(staged, id, digest_text, Some(0u64)) == Ok::<
                Seq<u8>,
                RegistryError,
            >(sha256(content))
            &&& after.dom().contains(sha256(content))
            &&& after[sha256(content)] == content
        }),
{
    assert(sessions_after_upload(sessions, id, content)[id] =~= content);
}

/// An upload that is finalized with a canonical digest other than that of its
/// content fails with a digest mismatch and leaves the published blobs as
/// they were.
pub proof fn lemma_mismatch_is_rejected(
    sessions: Map<u128, Seq<u8>>,
    blobs: Map<Seq<u8>, Seq<u8>>,
    id: u128,
    content: Seq<u8>,
    digest_text: Seq<char>,
)
    requires
        !sessions.dom().contains(id),
        canonical_value(digest_text).is_some(),
        canonical_value(digest_text) != Some(sha256(content)),
    ensures
        ({
            let staged = sessions_after_upload(sessions, id, content);
            &&& finalize_outcome(staged, id, digest_text, Some(0u64)) == Err::<
                Seq<u8>,
                RegistryError,
            >(RegistryError::DigestMismatch)
            &&& blobs_after_finalize(staged, blobs, id, digest_text, Some(0u64)) == blobs
        }),
{
    assert(sessions_after_upload(sessions, id, content)[id] =~= content);
}

/// A final request whose digest is not canonical is refused as such, and
/// neither the sessions nor the published blobs change.
pub proof fn lemma_malformed_digest_changes_nothing(
    sessions: Map<u128, Seq<u8>>,
    blobs: Map<Seq<u8>, Seq<u8>>,
    id: u128,
    digest_text: Seq<char>,
    declared: Option<u64>,
)
    requires
        canonical_value(digest_text).is_none(),
    ensures
        finalize_outcome(sessions, id, digest_text, declared) == Err::<Seq<u8>, RegistryError>(
            RegistryError::InvalidDigest,
        ),
        sessions_after_finalize(sessions, id, digest_text, declared) == sessions,
        blobs_after_finalize(sessions, blobs, id, digest_text, declared) == blobs,
{
}

/// After an admitted final request the session is closed: a body sent to it
/// changes nothing, and a second final request finds no session.
pub proof fn lemma_closed_session_is_not_found(
    sessions: Map<u128, Seq<u8>>,
    id: u128,
    digest_text: Seq<char>,
    body: Seq<u8>,
)
    requires
        canonical_value(digest_text).is_some(),
    ensures
        ({
            let after = sessions_after_finalize(sessions, id, digest_text, Some(0u64));
            &&& !after.dom().contains(id)
            &&& append_effect(after, id, false, body) == after
            &&& finalize_outcome(after, id, digest_text, Some(0u64)) == Err::<
                Seq<u8>,
                RegistryError,
            >(RegistryError::SessionNotFound)
        }),
{
}

} // verus!
