//! The `Basic` credential header: the scheme, spaces, and the base64 text of
//! `username:password`.

use vstd::prelude::*;
use vstd::utf8::{decode_utf8, valid_utf8};

verus! {

/// The value of a character of the base64 alphabet; `None` for any other byte.
pub open spec fn sextet(c: u8) -> Option<int> {
    if 65 <= c <= 90 {
        Some(c - 65)
    } else if 97 <= c <= 122 {
        Some(c - 71)
    } else if 48 <= c <= 57 {
        Some(c + 4)
    } else if c == 43 {
        Some(62)
    } else if c == 47 {
        Some(63)
    } else {
        None
    }
}

/// The three bytes that four sextets spell.
pub open spec fn spelled(a: int, b: int, c: int, d: int) -> Seq<u8> {
    let n = ((a * 64 + b) * 64 + c) * 64 + d;
    seq![(n / 65536) as u8, ((n / 256) % 256) as u8, (n % 256) as u8]
}

/// The bytes that one group of four characters stands for: three, or two or
/// one where the group ends in padding.
#[verifier::opaque]
pub open spec fn quantum(a: u8, b: u8, c: u8, d: u8) -> Option<Seq<u8>> {
    if sextet(a).is_none() || sextet(b).is_none() {
        None
    } else if d == 61 && c == 61 {
        Some(spelled(sextet(a).unwrap(), sextet(b).unwrap(), 0, 0).take(1))
    } else if sextet(c).is_none() {
        None
    } else if d == 61 {
        Some(spelled(sextet(a).unwrap(), sextet(b).unwrap(), sextet(c).unwrap(), 0).take(2))
    } else if sextet(d).is_none() {
        None
    } else {
        Some(spelled(sextet(a).unwrap(), sextet(b).unwrap(), sextet(c).unwrap(), sextet(d).unwrap()))
    }
}

/// The bytes that a base64 text stands for. The text is made of groups of
/// four characters, and only the last group may be padded.
pub open spec fn base64_decoded(text: Seq<u8>) -> Option<Seq<u8>>
    decreases text.len(),
{
    if text.len() == 0 {
        Some(Seq::empty())
    } else if text.len() < 4 {
        None
    } else {
        match quantum(text[0], text[1], text[2], text[3]) {
            None => None,
            Some(first) => if first.len() < 3 && text.len() > 4 {
                None
            } else {
                match base64_decoded(text.skip(4)) {
                    None => None,
                    Some(rest) => Some(first + rest),
                }
            },
        }
    }
}

/// Whether the header starts with the scheme `Basic`, in any case, and a space.
pub open spec fn has_basic_scheme(header: Seq<u8>) -> bool {
    &&& header.len() >= 6
    &&& (header[0] == 66 || header[0] == 98)
    &&& (header[1] == 65 || header[1] == 97)
    &&& (header[2] == 83 || header[2] == 115)
    &&& (header[3] == 73 || header[3] == 105)
    &&& (header[4] == 67 || header[4] == 99)
    &&& header[5] == 32
}

/// The text without the spaces it starts with.
pub open spec fn without_leading_spaces(text: Seq<u8>) -> Seq<u8>
    decreases text.len(),
{
    if text.len() > 0 && text[0] == 32 {
        without_leading_spaces(text.skip(1))
    } else {
        text
    }
}

/// How many bytes come before the first colon; the length where there is none.
pub open spec fn before_colon(bytes: Seq<u8>) -> int
    decreases bytes.len(),
{
    if bytes.len() == 0 || bytes[0] == 58 {
        0
    } else {
        1 + before_colon(bytes.skip(1))
    }
}

/// Username and password of decoded credentials: what stands before the first
/// colon and what stands after it, both as UTF-8.
pub open spec fn split_credentials(decoded: Seq<u8>) -> Option<(Seq<char>, Seq<char>)> {
    let at = before_colon(decoded);
    let username = decoded.subrange(0, at);
    if at >= decoded.len() {
        None
    } else {
        let password = decoded.subrange(at + 1, decoded.len() as int);
        if valid_utf8(username) && valid_utf8(password) {
            Some((decode_utf8(username), decode_utf8(password)))
        } else {
            None
        }
    }
}

/// Username and password that a credential header carries, if it is well formed.
pub open spec fn basic_credentials(header: Seq<u8>) -> Option<(Seq<char>, Seq<char>)> {
    if !has_basic_scheme(header) {
        None
    } else {
        match base64_decoded(without_leading_spaces(header.skip(6))) {
            None => None,
            Some(decoded) => split_credentials(decoded),
        }
    }
}

/// `String::from_utf8`: the text that the bytes encode, where they are valid UTF-8.
#[verifier::external_body]
fn utf8_string(bytes: Vec<u8>) -> (r: Option<String>)
    ensures
        r.is_some() == valid_utf8(bytes@),
        r matches Some(text) ==> text@ == decode_utf8(bytes@),
{
    String::from_utf8(bytes).ok()
}

fn sextet_of(c: u8) -> (r: Option<u32>)
    ensures
        match r {
            Some(v) => sextet(c) == Some(v as int) && v < 64,
            None => sextet(c).is_none(),
        },
{
    if 65 <= c && c <= 90 {
        Some((c - 65) as u32)
    } else if 97 <= c && c <= 122 {
        Some((c - 71) as u32)
    } else if 48 <= c && c <= 57 {
        Some((c + 4) as u32)
    } else if c == 43 {
        Some(62)
    } else if c == 47 {
        Some(63)
    } else {
        None
    }
}

/// Appends to `out` the first `count` of the three bytes that the sextets spell.
fn push_spelled(out: &mut Vec<u8>, a: u32, b: u32, c: u32, d: u32, count: usize)
    requires
        a < 64,
        b < 64,
        c < 64,
        d < 64,
        1 <= count <= 3,
    ensures
        final(out)@ == old(out)@ + spelled(a as int, b as int, c as int, d as int).take(
            count as int,
        ),
{
    let n: u32 = ((a * 64 + b) * 64 + c) * 64 + d;
    assert(n < 16777216);
    out.push((n / 65536) as u8);
    if count >= 2 {
        out.push(((n / 256) % 256) as u8);
    }
    if count >= 3 {
        out.push((n % 256) as u8);
    }
    assert(out@ =~= old(out)@ + spelled(a as int, b as int, c as int, d as int).take(
        count as int,
    ));
}

/// Decodes one group into `out`; says how many bytes it gave, or `None` where
/// the group is no base64, and then leaves `out` as it was.
fn push_quantum(out: &mut Vec<u8>, a: u8, b: u8, c: u8, d: u8) -> (r: Option<usize>)
    ensures
        match r {
            Some(count) => quantum(a, b, c, d) matches Some(bytes) && bytes.len() == count
                && final(out)@ == old(out)@ + bytes,
            None => quantum(a, b, c, d).is_none() && final(out)@ == old(out)@,
        },
{
    reveal(quantum);
    let va = match sextet_of(a) {
        Some(v) => v,
        None => {
            return None;
        },
    };
    let vb = match sextet_of(b) {
        Some(v) => v,
        None => {
            return None;
        },
    };
    if d == 61 && c == 61 {
        push_spelled(out, va, vb, 0, 0, 1);
        return Some(1);
    }
    let vc = match sextet_of(c) {
        Some(v) => v,
        None => {
            return None;
        },
    };
    if d == 61 {
        push_spelled(out, va, vb, vc, 0, 2);
        return Some(2);
    }
    let vd = match sextet_of(d) {
        Some(v) => v,
        None => {
            return None;
        },
    };
    push_spelled(out, va, vb, vc, vd, 3);
    Some(3)
}

proof fn lemma_decoded_by_groups(text: Seq<u8>)
    requires
        text.len() >= 4,
    ensures
        base64_decoded(text) == match quantum(text[0], text[1], text[2], text[3]) {
            None => None::<Seq<u8>>,
            Some(first) => if first.len() < 3 && text.len() > 4 {
                None
            } else {
                match base64_decoded(text.skip(4)) {
                    None => None,
                    Some(rest) => Some(first + rest),
                }
            },
        },
{
}

/// Decodes the base64 text that starts at `from` and runs to the end of `text`.
pub fn base64_decode(text: &[u8], from: usize) -> (r: Option<Vec<u8>>)
    requires
        from <= text@.len(),
    ensures
        match r {
            Some(bytes) => base64_decoded(text@.skip(from as int)) == Some(bytes@),
            None => base64_decoded(text@.skip(from as int)).is_none(),
        },
{
    let mut out: Vec<u8> = Vec::new();
    let mut i: usize = from;
    while text.len() - i >= 4
        invariant
            from <= i <= text@.len(),
            base64_decoded(text@.skip(from as int)) == match base64_decoded(text@.skip(i as int)) {
                Some(rest) => Some(out@ + rest),
                None => None::<Seq<u8>>,
            },
        decreases text@.len() - i,
    {
        let ghost tail = text@.skip(i as int);
        assert(tail.skip(4) =~= text@.skip(i + 4));
        assert(tail[0] == text@[i as int] && tail[1] == text@[i + 1] && tail[2] == text@[i + 2]
            && tail[3] == text@[i + 3]);
        let ghost before = out@;
        proof {
            lemma_decoded_by_groups(tail);
        }
        match push_quantum(&mut out, text[i], text[i + 1], text[i + 2], text[i + 3]) {
            None => {
                return None;
            },
            Some(count) => {
                if count < 3 && text.len() - i > 4 {
                    return None;
                }
                proof {
                    let first = quantum(tail[0], tail[1], tail[2], tail[3]).unwrap();
                    match base64_decoded(tail.skip(4)) {
                        Some(rest) => {
                            assert(before + (first + rest) =~= (before + first) + rest);
                        },
                        None => {},
                    }
                }
            },
        }
        i += 4;
    }
    if i < text.len() {
        assert(0 < text@.skip(i as int).len() < 4);
        return None;
    }
    assert(text@.skip(i as int) =~= Seq::<u8>::empty());
    assert(out@ + Seq::<u8>::empty() =~= out@);
    Some(out)
}

fn copy_range(bytes: &Vec<u8>, from: usize, to: usize) -> (r: Vec<u8>)
    requires
        from <= to <= bytes@.len(),
    ensures
        r@ == bytes@.subrange(from as int, to as int),
{
    let mut r: Vec<u8> = Vec::new();
    let mut i: usize = from;
    while i < to
        invariant
            from <= i <= to <= bytes@.len(),
            r@ == bytes@.subrange(from as int, i as int),
        decreases to - i,
    {
        r.push(bytes[i]);
        assert(r@ =~= bytes@.subrange(from as int, i + 1));
        i += 1;
    }
    r
}

proof fn lemma_before_colon(bytes: Seq<u8>, upto: int)
    requires
        0 <= upto <= bytes.len(),
        forall|k: int| 0 <= k < upto ==> bytes[k] != 58,
    ensures
        before_colon(bytes) == upto + before_colon(bytes.skip(upto)),
    decreases upto,
{
    if upto > 0 {
        assert(bytes.skip(1).skip(upto - 1) =~= bytes.skip(upto));
        assert forall|k: int| 0 <= k < upto - 1 implies bytes.skip(1)[k] != 58 by {
            assert(bytes.skip(1)[k] == bytes[k + 1]);
        }
        lemma_before_colon(bytes.skip(1), upto - 1);
    } else {
        assert(bytes.skip(0) =~= bytes);
    }
}

proof fn lemma_without_leading_spaces(text: Seq<u8>, upto: int)
    requires
        0 <= upto <= text.len(),
        forall|k: int| 0 <= k < upto ==> text[k] == 32,
    ensures
        without_leading_spaces(text) == without_leading_spaces(text.skip(upto)),
    decreases upto,
{
    if upto > 0 {
        assert(text.skip(1).skip(upto - 1) =~= text.skip(upto));
        assert forall|k: int| 0 <= k < upto - 1 implies text.skip(1)[k] == 32 by {
            assert(text.skip(1)[k] == text[k + 1]);
        }
        lemma_without_leading_spaces(text.skip(1), upto - 1);
    } else {
        assert(text.skip(0) =~= text);
    }
}

/// Splits decoded credentials at their first colon.
pub fn split_at_colon(decoded: &Vec<u8>) -> (r: Option<(String, String)>)
    ensures
        match r {
            Some((username, password)) => split_credentials(decoded@) == Some(
                (username@, password@),
            ),
            None => split_credentials(decoded@).is_none(),
        },
{
    let mut at: usize = 0;
    while at < decoded.len() && decoded[at] != 58
        invariant
            at <= decoded@.len(),
            forall|k: int| 0 <= k < at ==> decoded@[k] != 58,
        decreases decoded@.len() - at,
    {
        at += 1;
    }
    proof {
        lemma_before_colon(decoded@, at as int);
        if at < decoded@.len() {
            assert(decoded@.skip(at as int)[0] == 58);
        }
    }
    if at >= decoded.len() {
        return None;
    }
    let username = utf8_string(copy_range(decoded, 0, at));
    let password = utf8_string(copy_range(decoded, at + 1, decoded.len()));
    match (username, password) {
        (Some(username), Some(password)) => Some((username, password)),
        _ => None,
    }
}

/// Reads username and password from the value of a credential header.
pub fn parse_basic(header: &[u8]) -> (r: Option<(String, String)>)
    ensures
        match r {
            Some((username, password)) => basic_credentials(header@) == Some(
                (username@, password@),
            ),
            None => basic_credentials(header@).is_none(),
        },
{
    if header.len() < 6 {
        return None;
    }
    let scheme = (header[0] == 66 || header[0] == 98) && (header[1] == 65 || header[1] == 97) && (
    header[2] == 83 || header[2] == 115) && (header[3] == 73 || header[3] == 105) && (header[4]
        == 67 || header[4] == 99) && header[5] == 32;
    if !scheme {
        return None;
    }
    let mut start: usize = 6;
    while start < header.len() && header[start] == 32
        invariant
            6 <= start <= header@.len(),
            forall|k: int| 6 <= k < start ==> header@[k] == 32,
        decreases header@.len() - start,
    {
        start += 1;
    }
    proof {
        let rest = header@.skip(6);
        assert forall|k: int| 0 <= k < start - 6 implies rest[k] == 32 by {
            assert(rest[k] == header@[k + 6]);
        }
        lemma_without_leading_spaces(rest, start - 6);
        assert(rest.skip(start - 6) =~= header@.skip(start as int));
        if start < header@.len() {
            assert(header@.skip(start as int)[0] != 32);
        }
    }
    match base64_decode(header, start) {
        None => None,
        Some(decoded) => split_at_colon(&decoded),
    }
}

} // verus!
