use rockslide::digest::{Digest, DigestError, Hasher};

const EMPTY_SHA256: &str = "sha256:e3b0c44298fc1c149afbf4c8996fb92427ae41e4649b934ca495991b7852b855";
const ABC_SHA256: &str = "sha256:ba7816bf8f01cfea414140de5dae2223b00361a396177a9cb410ff61f20015ad";

#[test]
fn compute_of_empty_input_is_the_known_hash() {
    assert_eq!(Digest::compute(b"").to_canonical_string(), EMPTY_SHA256);
}

#[test]
fn compute_of_abc_is_the_known_hash() {
    assert_eq!(Digest::compute(b"abc").to_canonical_string(), ABC_SHA256);
}

#[test]
fn compute_differs_from_its_input() {
    let input = [7u8; 32];
    assert_ne!(Digest::compute(&input).as_bytes(), &input);
}

#[test]
fn round_trip_through_canonical_text() {
    let payloads: Vec<Vec<u8>> = vec![vec![], vec![0], b"hello world".to_vec(), vec![0xff; 1000]];
    for payload in payloads {
        let digest = Digest::compute(&payload);
        let text = digest.to_canonical_string();
        assert_eq!(text.len(), 71);
        assert_eq!(Digest::parse(&text), Ok(digest));
    }
}

#[test]
fn canonical_text_spells_each_byte_in_lowercase_hex() {
    let mut raw = [0u8; 32];
    raw[0] = 0x01;
    raw[1] = 0xab;
    raw[31] = 0xf0;
    let text = Digest::from_bytes(raw).to_canonical_string();
    assert_eq!(
        text,
        "sha256:01ab0000000000000000000000000000000000000000000000000000000000f0"
    );
}

#[test]
fn parse_reads_each_pair_of_digits_as_a_byte() {
    let digest =
        Digest::parse("sha256:01ab0000000000000000000000000000000000000000000000000000000000f0")
            .unwrap();
    let mut raw = [0u8; 32];
    raw[0] = 0x01;
    raw[1] = 0xab;
    raw[31] = 0xf0;
    assert_eq!(digest.as_bytes(), &raw);
    assert_eq!(digest, Digest::from_bytes(raw));
}

#[test]
fn parse_rejects_a_missing_prefix() {
    let bare = &ABC_SHA256[7..];
    assert_eq!(Digest::parse(bare), Err(DigestError::InvalidFormat));
    let padded = format!("{}{}", bare, "0000000");
    assert_eq!(padded.len(), 71);
    assert_eq!(Digest::parse(&padded), Err(DigestError::InvalidFormat));
}

#[test]
fn parse_rejects_another_algorithm_tag() {
    let text = format!("sha512:{}", &ABC_SHA256[7..]);
    assert_eq!(Digest::parse(&text), Err(DigestError::InvalidFormat));
}

#[test]
fn parse_rejects_63_hex_digits() {
    let text = &ABC_SHA256[..70];
    assert_eq!(Digest::parse(text), Err(DigestError::InvalidFormat));
}

#[test]
fn parse_rejects_65_hex_digits() {
    let text = format!("{}0", ABC_SHA256);
    assert_eq!(Digest::parse(&text), Err(DigestError::InvalidFormat));
}

#[test]
fn parse_rejects_uppercase_digits() {
    let text = ABC_SHA256.replace("ba78", "BA78");
    assert_eq!(Digest::parse(&text), Err(DigestError::InvalidFormat));
}

#[test]
fn parse_rejects_characters_that_are_no_digits() {
    let text = ABC_SHA256.replace("ba78", "zz78");
    assert_eq!(Digest::parse(&text), Err(DigestError::InvalidFormat));
    let wide = ABC_SHA256.replace("ba78", "\u{e9}a78");
    assert_eq!(Digest::parse(&wide), Err(DigestError::InvalidFormat));
}

#[test]
fn parse_rejects_the_empty_text() {
    assert_eq!(Digest::parse(""), Err(DigestError::InvalidFormat));
}

#[test]
fn digests_compare_byte_for_byte() {
    let a = Digest::from_bytes([1u8; 32]);
    let b = Digest::from_bytes([1u8; 32]);
    let mut other = [1u8; 32];
    other[31] = 2;
    let c = Digest::from_bytes(other);
    assert!(a.same(&b));
    assert!(!a.same(&c));
    assert_eq!(a, b);
    assert_ne!(a, c);
}

#[test]
fn hashing_in_chunks_gives_the_digest_of_the_whole() {
    let mut hasher = Hasher::new();
    hasher.update(b"hello");
    hasher.update(b"");
    hasher.update(b" world");
    assert_eq!(hasher.finalize(), Digest::compute(b"hello world"));
    assert_eq!(Hasher::new().finalize().to_canonical_string(), EMPTY_SHA256);
}

#[test]
fn digests_are_ordered_byte_by_byte() {
    let low = Digest::from_bytes([0u8; 32]);
    let mut raw = [0u8; 32];
    raw[31] = 1;
    let last_differs = Digest::from_bytes(raw);
    let mut raw = [0u8; 32];
    raw[0] = 1;
    let first_differs = Digest::from_bytes(raw);
    let mut raw = [0xffu8; 32];
    raw[0] = 0;
    let mostly_high = Digest::from_bytes(raw);

    assert!(low < last_differs);
    assert!(last_differs < first_differs);
    assert!(mostly_high < first_differs);
    assert!(last_differs < mostly_high);
    assert!(!(first_differs < low));
    assert!(low <= low);
    assert!(low >= low);
    assert_eq!(low.partial_cmp(&low), Some(std::cmp::Ordering::Equal));
    assert_eq!(low.partial_cmp(&first_differs), Some(std::cmp::Ordering::Less));
    assert_eq!(first_differs.partial_cmp(&mostly_high), Some(std::cmp::Ordering::Greater));
    assert_eq!(first_differs.cmp(&mostly_high), std::cmp::Ordering::Greater);

    let mut all = vec![first_differs, low, mostly_high, last_differs];
    all.sort();
    assert_eq!(all, vec![low, last_differs, mostly_high, first_differs]);
}
