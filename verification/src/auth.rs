//! Authentication: unverified credentials, the providers that judge them, and
//! the verified identity that only a provider's approval can produce.

use vstd::prelude::*;
use crate::basic::{basic_credentials, parse_basic};

verus! {

/// Why a request carries no usable identity.
#[derive(Clone, Copy, Debug, PartialEq, Eq, Structural)]
pub enum AuthError {
    /// No credentials, or credentials that the provider turned down.
    Unauthorized,
    /// A credential header that could not be read.
    BadRequest,
}

impl AuthError {
    /// The HTTP status that reports the error.
    pub fn status(&self) -> (code: u16)
        ensures
            code == match *self {
                AuthError::Unauthorized => 401u16,
                AuthError::BadRequest => 400u16,
            },
    {
        match self {
            AuthError::Unauthorized => 401,
            AuthError::BadRequest => 400,
        }
    }
}

/// What a request's credential header yields: username and password, or the
/// error that a missing or malformed header stands for.
pub open spec fn header_credentials(header: Option<&[u8]>) -> Result<
    (Seq<char>, Seq<char>),
    AuthError,
> {
    match header {
        None => Err(AuthError::Unauthorized),
        Some(value) => match basic_credentials(value@) {
            None => Err(AuthError::BadRequest),
            Some(pair) => Ok(pair),
        },
    }
}

/// `sec::Secret`: a value that is kept out of debug output and logs.
#[verifier::external_type_specification]
#[verifier::external_body]
#[verifier::reject_recursive_types(T)]
pub struct ExSecret<T>(sec::Secret<T>);

/// The text that a secret string keeps.
pub uninterp spec fn secret_text(secret: sec::Secret<String>) -> Seq<char>;

/// `sec::Secret::new`: a secret that keeps `text`.
#[verifier::external_body]
fn conceal(text: String) -> (secret: sec::Secret<String>)
    ensures
        secret_text(secret) == text@,
{
    sec::Secret::new(text)
}

/// `sec::Secret::reveal_str`: the text that the secret keeps.
#[verifier::external_body]
fn unwrapped(secret: &sec::Secret<String>) -> (text: &str)
    ensures
        text@ == secret_text(*secret),
{
    secret.reveal_str()
}

/// `Clone` of `sec::Secret`: a second secret that keeps the same text.
#[verifier::external_body]
fn duplicate(secret: &sec::Secret<String>) -> (copy: sec::Secret<String>)
    ensures
        secret_text(copy) == secret_text(*secret),
{
    secret.clone()
}

/// A set of credentials supplied that has not been verified.
#[derive(Debug)]
pub struct UnverifiedCredentials {
    /// The given username.
    pub username: String,
    /// The provided password.
    pub password: sec::Secret<String>,
}

impl UnverifiedCredentials {
    /// Credentials of `username`, with `password` kept secret.
    pub fn new(username: String, password: String) -> (creds: UnverifiedCredentials)
        ensures
            creds.username == username,
            secret_text(creds.password) == password@,
    {
        UnverifiedCredentials { username, password: conceal(password) }
    }

    /// Takes the credentials out of a request's credential header: a missing
    /// header is unauthorized, a malformed one a bad request.
    pub fn from_header(header: Option<&[u8]>) -> (r: Result<UnverifiedCredentials, AuthError>)
        ensures
            match r {
                Ok(c) => header_credentials(header) == Ok::<(Seq<char>, Seq<char>), AuthError>(
                    (c.username@, secret_text(c.password)),
                ),
                Err(e) => header_credentials(header) == Err::<(Seq<char>, Seq<char>), AuthError>(
                    e,
                ),
            },
    {
        match header {
            None => Err(AuthError::Unauthorized),
            Some(value) => match parse_basic(value) {
                Some((username, password)) => Ok(UnverifiedCredentials::new(username, password)),
                None => Err(AuthError::BadRequest),
            },
        }
    }
}

/// An authentication and authorization provider.
///
/// Any valid user has full access.
pub trait AuthProvider {
    /// Whether the provider holds this username and password to be valid.
    spec fn accepts(&self, username: Seq<char>, password: Seq<char>) -> bool;

    /// Determines whether the supplied credentials are valid.
    fn check_credentials(&self, creds: &UnverifiedCredentials) -> (ok: bool)
        ensures
            ok == self.accepts(creds.username@, secret_text(creds.password)),
    ;
}

/// A set of credentials that has been validated.
///
/// The only way to make one is [`ValidUser::verify`].
#[derive(Debug)]
pub struct ValidUser(String);

impl View for ValidUser {
    type V = Seq<char>;

    closed spec fn view(&self) -> Seq<char> {
        self.0@
    }
}

impl ValidUser {
    /// Returns the valid user's username.
    pub fn username(&self) -> (name: &str)
        ensures
            name@ == self@,
    {
        self.0.as_str()
    }

    /// Asks `provider` about `creds` and names the user if it accepts them.
    pub fn verify<A: AuthProvider>(provider: &A, creds: UnverifiedCredentials) -> (r: Result<
        ValidUser,
        AuthError,
    >)
        ensures
            match r {
                Ok(user) => provider.accepts(creds.username@, secret_text(creds.password))
                    && user@ == creds.username@,
                Err(e) => !provider.accepts(creds.username@, secret_text(creds.password)) && e
                    == AuthError::Unauthorized,
            },
    {
        if provider.check_credentials(&creds) {
            Ok(ValidUser(creds.username))
        } else {
            Err(AuthError::Unauthorized)
        }
    }

    /// Reads the credential header and verifies what it holds.
    pub fn from_header<A: AuthProvider>(provider: &A, header: Option<&[u8]>) -> (r: Result<
        ValidUser,
        AuthError,
    >)
        ensures
            match header_credentials(header) {
                Err(e) => r matches Err(got) && got == e,
                Ok((username, password)) => match r {
                    Ok(user) => provider.accepts(username, password) && user@ == username,
                    Err(e) => !provider.accepts(username, password) && e
                        == AuthError::Unauthorized,
                },
            },
    {
        match UnverifiedCredentials::from_header(header) {
            Ok(creds) => ValidUser::verify(provider, creds),
            Err(e) => Err(e),
        }
    }
}

/// `constant_time_eq::constant_time_eq` on the bytes of two strings: whether
/// the two are equal, in a time that depends on their lengths alone.
#[verifier::external_body]
fn constant_time_str_eq(a: &str, b: &str) -> (same: bool)
    ensures
        same == (a@ == b@),
{
    constant_time_eq::constant_time_eq(a.as_bytes(), b.as_bytes())
}

/// Always allow (`true`) or always deny (`false`).
impl AuthProvider for bool {
    open spec fn accepts(&self, username: Seq<char>, password: Seq<char>) -> bool {
        *self
    }

    fn check_credentials(&self, creds: &UnverifiedCredentials) -> (ok: bool) {
        *self
    }
}

impl<T: AuthProvider> AuthProvider for Box<T> {
    open spec fn accepts(&self, username: Seq<char>, password: Seq<char>) -> bool {
        (**self).accepts(username, password)
    }

    fn check_credentials(&self, creds: &UnverifiedCredentials) -> (ok: bool) {
        (**self).check_credentials(creds)
    }
}

impl<T: AuthProvider> AuthProvider for std::sync::Arc<T> {
    open spec fn accepts(&self, username: Seq<char>, password: Seq<char>) -> bool {
        (**self).accepts(username, password)
    }

    fn check_credentials(&self, creds: &UnverifiedCredentials) -> (ok: bool) {
        (**self).check_credentials(creds)
    }
}

/// One user of a password table.
#[derive(Debug)]
pub struct PasswordEntry {
    pub username: String,
    pub password: sec::Secret<String>,
}

/// The mapping that a list of entries stands for; a later entry wins.
pub open spec fn entries_map(entries: Seq<PasswordEntry>) -> Map<Seq<char>, Seq<char>>
    decreases entries.len(),
{
    if entries.len() == 0 {
        Map::empty()
    } else {
        entries_map(entries.drop_last()).insert(
            entries.last().username@,
            secret_text(entries.last().password),
        )
    }
}

proof fn lemma_entries_absent(entries: Seq<PasswordEntry>, username: Seq<char>)
    requires
        forall|i: int| 0 <= i < entries.len() ==> entries[i].username@ != username,
    ensures
        !entries_map(entries).dom().contains(username),
    decreases entries.len(),
{
    if entries.len() > 0 {
        lemma_entries_absent(entries.drop_last(), username);
    }
}

proof fn lemma_entries_present(entries: Seq<PasswordEntry>, at: int)
    requires
        0 <= at < entries.len(),
        forall|i: int| at < i < entries.len() ==> entries[i].username@ != entries[at].username@,
    ensures
        entries_map(entries).dom().contains(entries[at].username@),
        entries_map(entries)[entries[at].username@] == secret_text(entries[at].password),
    decreases entries.len(),
{
    if at < entries.len() - 1 {
        lemma_entries_present(entries.drop_last(), at);
    }
}

/// A mapping of usernames to passwords.
#[derive(Debug)]
pub struct PasswordTable {
    entries: Vec<PasswordEntry>,
}

impl View for PasswordTable {
    type V = Map<Seq<char>, Seq<char>>;

    /// The password of each known user.
    closed spec fn view(&self) -> Map<Seq<char>, Seq<char>> {
        entries_map(self.entries@)
    }
}

impl PasswordTable {
    /// A table without users.
    pub fn new() -> (table: PasswordTable)
        ensures
            table@ == Map::<Seq<char>, Seq<char>>::empty(),
    {
        PasswordTable { entries: Vec::new() }
    }

    /// Sets the password of `username`, replacing an earlier one.
    pub fn insert(&mut self, username: String, password: sec::Secret<String>)
        ensures
            final(self)@ == old(self)@.insert(username@, secret_text(password)),
    {
        let ghost before = self.entries@;
        self.entries.push(PasswordEntry { username, password });
        assert(self.entries@.drop_last() =~= before);
    }
}

impl AuthProvider for PasswordTable {
    open spec fn accepts(&self, username: Seq<char>, password: Seq<char>) -> bool {
        self@.dom().contains(username) && self@[username] == password
    }

    fn check_credentials(&self, creds: &UnverifiedCredentials) -> (ok: bool) {
        let mut i: usize = self.entries.len();
        while i > 0
            invariant
                i <= self.entries@.len(),
                forall|k: int|
                    i <= k < self.entries@.len() ==> self.entries@[k].username@
                        != creds.username@,
            decreases i,
        {
            i -= 1;
            if self.entries[i].username == creds.username {
                proof {
                    lemma_entries_present(self.entries@, i as int);
                }
                return constant_time_str_eq(
                    unwrapped(&self.entries[i].password),
                    unwrapped(&creds.password),
                );
            }
        }
        proof {
            lemma_entries_absent(self.entries@, creds.username@);
        }
        false
    }
}

/// A single shared secret that is either locked away or set.
#[derive(Debug)]
pub enum MasterKey {
    /// No key is set: nobody gets in.
    Locked,
    /// Whoever presents this key gets in.
    Key(sec::Secret<String>),
}

impl MasterKey {
    /// A master key that is set to `key`.
    pub fn new_key(key: String) -> (k: MasterKey)
        ensures
            k matches MasterKey::Key(kept) && secret_text(kept) == key@,
    {
        MasterKey::Key(conceal(key))
    }

    /// The key as a secret string; the empty string when locked.
    pub fn as_secret_string(&self) -> (text: sec::Secret<String>)
        ensures
            secret_text(text) == match *self {
                MasterKey::Locked => Seq::<char>::empty(),
                MasterKey::Key(key) => secret_text(key),
            },
    {
        match self {
            MasterKey::Locked => conceal(String::new()),
            MasterKey::Key(key) => duplicate(key),
        }
    }
}

impl Default for MasterKey {
    fn default() -> (k: MasterKey)
        ensures
            k == MasterKey::Locked,
    {
        MasterKey::Locked
    }
}

impl AuthProvider for MasterKey {
    open spec fn accepts(&self, username: Seq<char>, password: Seq<char>) -> bool {
        match *self {
            MasterKey::Locked => false,
            MasterKey::Key(key) => secret_text(key) == password,
        }
    }

    fn check_credentials(&self, creds: &UnverifiedCredentials) -> (ok: bool) {
        match self {
            MasterKey::Locked => false,
            MasterKey::Key(key) => constant_time_str_eq(unwrapped(&creds.password), unwrapped(key)),
        }
    }
}

} // verus!
