//! Content digests: a SHA-256 value and its textual form `sha256:<hex>`.

use vstd::prelude::*;
use vstd::string::*;

verus! {

/// The SHA-256 hash of a byte sequence.
pub uninterp spec fn sha256(data: Seq<u8>) -> Seq<u8>;

/// The algorithm tag that starts every canonical digest text.
pub open spec fn prefix() -> Seq<char> {
    seq!['s', 'h', 'a', '2', '5', '6', ':']
}

/// Value of a hexadecimal digit of either case, `None` for any other character.
pub open spec fn hex_value(c: char) -> Option<int> {
    let n = c as u32 as int;
    if 48 <= n <= 57 {
        Some(n - 48)
    } else if 97 <= n <= 102 {
        Some(n - 87)
    } else if 65 <= n <= 70 {
        Some(n - 55)
    } else {
        None
    }
}

/// Whether `c` is one of `0-9` or `a-f`.
pub open spec fn is_lower_hex(c: char) -> bool {
    let n = c as u32 as int;
    48 <= n <= 57 || 97 <= n <= 102
}

/// The lowercase hexadecimal digit for a value below sixteen.
pub open spec fn hex_char(n: int) -> char {
    if n < 10 {
        ((48 + n) as u8) as char
    } else {
        ((87 + n) as u8) as char
    }
}

/// Lowercase hexadecimal text of a byte sequence, two digits per byte.
pub open spec fn hex_text(bytes: Seq<u8>) -> Seq<char> {
    Seq::new(
        2 * bytes.len(),
        |i: int|
            if i % 2 == 0 {
                hex_char(bytes[i / 2] as int / 16)
            } else {
                hex_char(bytes[i / 2] as int % 16)
            },
    )
}

/// Canonical text of a digest value: the prefix, then the lowercase hex digits.
pub open spec fn canonical_text(bytes: Seq<u8>) -> Seq<char> {
    prefix() + hex_text(bytes)
}

/// Whether `s` has the exact canonical shape.
pub open spec fn is_canonical(s: Seq<char>) -> bool {
    &&& s.len() == 71
    &&& s.subrange(0, 7) == prefix()
    &&& forall|i: int| 7 <= i < 71 ==> is_lower_hex(#[trigger] s[i])
}

/// The byte that the hex digits `hi` and `lo` stand for.
pub open spec fn byte_of(hi: char, lo: char) -> u8 {
    (16 * hex_value(hi).unwrap() + hex_value(lo).unwrap()) as u8
}

/// The bytes that the hex digits of `s` stand for, `offset` characters in.
pub open spec fn decoded(s: Seq<char>, offset: int) -> Seq<u8> {
    Seq::new(32, |k: int| byte_of(s[offset + 2 * k], s[offset + 2 * k + 1]))
}

/// The digest value that a text denotes, if it is canonical.
pub open spec fn canonical_value(s: Seq<char>) -> Option<Seq<u8>> {
    if is_canonical(s) {
        Some(decoded(s, 7))
    } else {
        None
    }
}

/// Why a text is not a digest.
#[derive(Clone, Copy, Debug, PartialEq, Eq, Structural)]
pub enum DigestError {
    /// Wrong length, wrong prefix or a character that is no lowercase hex digit.
    InvalidFormat,
}

/// A SHA-256 content hash.
#[derive(Clone, Copy, Debug, Ord, Hash)]
pub struct Digest {
    bytes: [u8; 32],
}

impl View for Digest {
    type V = Seq<u8>;

    closed spec fn view(&self) -> Seq<u8> {
        self.bytes@
    }
}

impl PartialEq for Digest {
    fn eq(&self, other: &Digest) -> (r: bool) {
        self.same(other)
    }
}

impl Eq for Digest {

}

impl vstd::std_specs::cmp::PartialEqSpecImpl for Digest {
    open spec fn obeys_eq_spec() -> bool {
        true
    }

    open spec fn eq_spec(&self, other: &Digest) -> bool {
        self@ == other@
    }
}

/// `hex::FromHexError`: why `hex` could not decode a text. Nothing is read from it.
#[verifier::external_type_specification]
#[verifier::external_body]
pub struct ExFromHexError(hex::FromHexError);

/// `hex::encode` on a 32-byte array: two lowercase digits for each byte, high
/// nibble first, taken from the table `0123456789abcdef`.
#[verifier::external_body]
fn hex_encode(bytes: &[u8; 32]) -> (text: String)
    ensures
        text@ == hex_text(bytes@),
{
    hex::encode(bytes)
}

/// `hex::FromHex::from_hex` for `[u8; 32]`: succeeds exactly on 64 hex digits
/// of either case, and then each byte is sixteen times the first digit of its
/// pair plus the second.
#[verifier::external_body]
fn hex_decode(text: &str) -> (r: Result<[u8; 32], hex::FromHexError>)
    ensures
        r.is_ok() <==> (text@.len() == 64 && forall|i: int|
            0 <= i < 64 ==> hex_value(#[trigger] text@[i]).is_some()),
        r matches Ok(b) ==> b@ == decoded(text@, 0),
{
    hex::FromHex::from_hex(text)
}

/// The running state of a SHA-256 computation, as `sha2::Sha256` keeps it.
#[verifier::external_body]
pub struct Sha256State {
    inner: sha2::Sha256,
}

/// The bytes that a running SHA-256 computation has taken in so far.
pub uninterp spec fn absorbed(state: Sha256State) -> Seq<u8>;

/// `sha2::Digest::new` for `sha2::Sha256`: a computation that has taken in nothing.
#[verifier::external_body]
fn sha256_start() -> (state: Sha256State)
    ensures
        absorbed(state) == Seq::<u8>::empty(),
{
    Sha256State { inner: sha2::Digest::new() }
}

/// `sha2::Digest::update`: the computation takes in `chunk` after what it has.
#[verifier::external_body]
fn sha256_update(state: &mut Sha256State, chunk: &[u8])
    ensures
        absorbed(*final(state)) == absorbed(*old(state)) + chunk@,
{
    sha2::Digest::update(&mut state.inner, chunk)
}

/// `sha2::Digest::finalize`: the SHA-256 hash of all that was taken in.
#[verifier::external_body]
fn sha256_finish(state: Sha256State) -> (out: [u8; 32])
    ensures
        out@ == sha256(absorbed(state)),
{
    sha2::Digest::finalize(state.inner).into()
}

/// A digest in the making: takes content chunk by chunk, so that the whole
/// never has to be at hand at once.
pub struct Hasher {
    state: Sha256State,
}

impl View for Hasher {
    type V = Seq<u8>;

    /// All bytes taken in so far, in order.
    closed spec fn view(&self) -> Seq<u8> {
        absorbed(self.state)
    }
}

impl Hasher {
    /// A hasher that has taken in nothing.
    pub fn new() -> (hasher: Hasher)
        ensures
            hasher@ == Seq::<u8>::empty(),
    {
        Hasher { state: sha256_start() }
    }

    /// Takes in `chunk` after what came before.
    pub fn update(&mut self, chunk: &[u8])
        ensures
            final(self)@ == old(self)@ + chunk@,
    {
        sha256_update(&mut self.state, chunk)
    }

    /// The digest of all that was taken in.
    pub fn finalize(self) -> (d: Digest)
        ensures
            d@ == sha256(self@),
    {
        Digest { bytes: sha256_finish(self.state) }
    }
}

fn lower_hex(c: char) -> (r: bool)
    ensures
        r == is_lower_hex(c),
{
    let n: u32 = c as u32;
    (48 <= n && n <= 57) || (97 <= n && n <= 102)
}

impl Digest {
    /// Wraps 32 raw bytes.
    pub fn from_bytes(raw: [u8; 32]) -> (d: Digest)
        ensures
            d@ == raw@,
    {
        Digest { bytes: raw }
    }

    /// The raw bytes.
    pub fn as_bytes(&self) -> (raw: &[u8; 32])
        ensures
            raw@ == self@,
    {
        &self.bytes
    }

    /// Hashes `data`.
    pub fn compute(data: &[u8]) -> (d: Digest)
        ensures
            d@ == sha256(data@),
    {
        let mut hasher = Hasher::new();
        hasher.update(data);
        assert(Seq::<u8>::empty() + data@ =~= data@);
        hasher.finalize()
    }

    /// Byte-wise equality.
    pub fn same(&self, other: &Digest) -> (r: bool)
        ensures
            r == (self@ == other@),
    {
        let mut i: usize = 0;
        while i < 32
            invariant
                i <= 32,
                forall|k: int| 0 <= k < i ==> self.bytes[k] == other.bytes[k],
            decreases 32 - i,
        {
            if self.bytes[i] != other.bytes[i] {
                return false;
            }
            i += 1;
        }
        assert(self.bytes@ =~= other.bytes@);
        true
    }

    /// The text `sha256:` followed by 64 lowercase hex digits.
    pub fn to_canonical_string(&self) -> (text: String)
        ensures
            text@ == canonical_text(self@),
    {
        let digits = hex_encode(&self.bytes);
        let mut text = String::from_str("sha256:");
        proof {
            reveal_strlit("sha256:");
        }
        text.append(digits.as_str());
        assert(text@ =~= canonical_text(self@));
        text
    }

    /// Reads a digest from its canonical text; anything else is rejected.
    pub fn parse(text: &str) -> (r: Result<Digest, DigestError>)
        ensures
            match r {
                Ok(d) => canonical_value(text@) == Some(d@),
                Err(e) => canonical_value(text@).is_none() && e == DigestError::InvalidFormat,
            },
    {
        if text.unicode_len() != 71 {
            return Err(DigestError::InvalidFormat);
        }
        let tag = "sha256:";
        proof {
            reveal_strlit("sha256:");
        }
        let mut i: usize = 0;
        while i < 7
            invariant
                i <= 7,
                text@.len() == 71,
                tag@ == prefix(),
                forall|k: int| 0 <= k < i ==> text@[k] == prefix()[k],
            decreases 7 - i,
        {
            if text.get_char(i) != tag.get_char(i) {
                assert(text@.subrange(0, 7)[i as int] != prefix()[i as int]);
                return Err(DigestError::InvalidFormat);
            }
            i += 1;
        }
        assert(text@.subrange(0, 7) =~= prefix());
        while i < 71
            invariant
                7 <= i <= 71,
                text@.len() == 71,
                forall|k: int| 7 <= k < i ==> is_lower_hex(#[trigger] text@[k]),
            decreases 71 - i,
        {
            if !lower_hex(text.get_char(i)) {
                return Err(DigestError::InvalidFormat);
            }
            i += 1;
        }
        let digits = text.substring_char(7, 71);
        assert(decoded(digits@, 0) =~= decoded(text@, 7));
        assert(forall|k: int| 0 <= k < 64 ==> is_lower_hex(text@[k + 7]) && #[trigger] digits@[k] == text@[k + 7]);
        match hex_decode(digits) {
            Ok(bytes) => Ok(Digest { bytes }),
            Err(_) => Err(DigestError::InvalidFormat),
        }
    }
}

/// A text whose length is not that of the prefix and 64 digits is no digest.
pub proof fn lemma_wrong_length_is_rejected(text: Seq<char>)
    requires
        text.len() != 71,
    ensures
        canonical_value(text).is_none(),
{
}

/// A text that does not start with the algorithm tag is no digest.
pub proof fn lemma_wrong_prefix_is_rejected(text: Seq<char>)
    requires
        text.len() < 7 || text.subrange(0, 7) != prefix(),
    ensures
        canonical_value(text).is_none(),
{
}

/// Parsing the canonical text of a digest succeeds and gives that digest back.
pub proof fn lemma_round_trip(digest: Digest)
    ensures
        canonical_value(canonical_text(digest@)) == Some(digest@),
{
    lemma_parse_of_canonical(digest@);
}

/// Parsing the canonical text of any 32 bytes gives those bytes back.
pub proof fn lemma_parse_of_canonical(bytes: Seq<u8>)
    requires
        bytes.len() == 32,
    ensures
        canonical_value(canonical_text(bytes)) == Some(bytes),
{
    let s = canonical_text(bytes);
    assert(s.len() == 71);
    assert(s.subrange(0, 7) =~= prefix());
    assert forall|i: int| 7 <= i < 71 implies is_lower_hex(#[trigger] s[i]) by {
        let b = bytes[(i - 7) / 2] as int;
        assert(s[i] == hex_text(bytes)[i - 7]);
        assert(0 <= b / 16 < 16 && 0 <= b % 16 < 16);
    }
    assert forall|k: int| 0 <= k < 32 implies decoded(s, 7)[k] == bytes[k] by {
        let b = bytes[k] as int;
        assert(s[7 + 2 * k] == hex_text(bytes)[2 * k]);
        assert(s[7 + 2 * k + 1] == hex_text(bytes)[2 * k + 1]);
        assert((2 * k) / 2 == k && (2 * k) % 2 == 0);
        assert((2 * k + 1) / 2 == k && (2 * k + 1) % 2 == 1);
        assert(0 <= b / 16 < 16 && 0 <= b % 16 < 16);
        assert(16 * (b / 16) + b % 16 == b);
    }
    assert(decoded(s, 7) =~= bytes);
}

} // verus!
