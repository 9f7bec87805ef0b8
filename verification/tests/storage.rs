use rockslide::digest::Digest;
use rockslide::store::{BlobStore, Staging, StoreError};
use rockslide::upload::{UploadError, UploadManager};

fn staged(content: &[u8]) -> Staging {
    let mut staging = Staging::new();
    staging.write(content);
    staging
}

#[test]
fn staging_counts_what_it_received() {
    let mut staging = Staging::new();
    assert_eq!(staging.len(), 0);
    staging.write(b"abc");
    staging.write(b"");
    staging.write(b"de");
    assert_eq!(staging.len(), 5);
    let mut store = BlobStore::new();
    let digest = Digest::compute(b"abcde");
    assert_eq!(store.publish_from_staging(staging, &digest).unwrap().size(), 5);
    assert_eq!(store.open_read(&digest).unwrap().as_slice(), b"abcde");
}

#[test]
fn empty_store_knows_no_digest() {
    let store = BlobStore::new();
    let digest = Digest::compute(b"layer");
    assert!(store.get_metadata(&digest).is_none());
    assert_eq!(store.open_read(&digest), Err(StoreError::NotFound));
}

#[test]
fn publish_makes_content_visible_under_its_digest() {
    let mut store = BlobStore::new();
    let digest = Digest::compute(b"layer");
    let meta = store.publish_from_staging(staged(b"layer"), &digest).unwrap();
    assert_eq!(meta.size(), 5);
    assert_eq!(meta.digest(), digest);
    assert_eq!(meta.content_type(), "application/octet-stream");
    let found = store.get_metadata(&digest).unwrap();
    assert_eq!(found.size(), 5);
    assert_eq!(found.digest(), digest);
    assert_eq!(store.open_read(&digest).unwrap().as_slice(), b"layer");
}

#[test]
fn publish_with_a_wrong_digest_leaves_nothing_visible() {
    let mut store = BlobStore::new();
    let claimed = Digest::compute(b"other");
    let r = store.publish_from_staging(staged(b"layer"), &claimed);
    assert_eq!(r.err(), Some(StoreError::DigestMismatch));
    assert!(store.get_metadata(&claimed).is_none());
    assert!(store.get_metadata(&Digest::compute(b"layer")).is_none());
}

#[test]
fn publishing_the_same_content_twice_succeeds() {
    let mut store = BlobStore::new();
    let digest = Digest::compute(b"layer");
    let first = store.publish_from_staging(staged(b"layer"), &digest).unwrap();
    let second = store.publish_from_staging(staged(b"layer"), &digest).unwrap();
    assert_eq!(first.size(), second.size());
    assert_eq!(first.digest(), second.digest());
    assert_eq!(store.open_read(&digest).unwrap().as_slice(), b"layer");
}

#[test]
fn store_keeps_blobs_apart() {
    let mut store = BlobStore::new();
    let a = Digest::compute(b"a");
    let b = Digest::compute(b"bb");
    store.publish_from_staging(staged(b"a"), &a).unwrap();
    store.publish_from_staging(staged(b"bb"), &b).unwrap();
    assert_eq!(store.get_metadata(&a).unwrap().size(), 1);
    assert_eq!(store.get_metadata(&b).unwrap().size(), 2);
    assert_eq!(store.open_read(&a).unwrap().as_slice(), b"a");
    assert_eq!(store.open_read(&b).unwrap().as_slice(), b"bb");
}

#[test]
fn new_session_has_nothing_staged() {
    let mut uploads = UploadManager::new();
    let session = uploads.begin();
    assert_eq!(session.written, 0);
    assert!(uploads.is_open(session.id));
}

#[test]
fn sessions_get_different_ids() {
    let mut uploads = UploadManager::new();
    let a = uploads.begin();
    let b = uploads.begin();
    assert_ne!(a.id, b.id);
    assert!(uploads.is_open(a.id));
    assert!(uploads.is_open(b.id));
}

#[test]
fn an_id_in_use_opens_no_second_session() {
    let mut uploads = UploadManager::new();
    assert_eq!(uploads.open_session(9).unwrap().id, 9);
    assert_eq!(uploads.append(9, b"abc"), Ok(3));
    assert_eq!(uploads.open_session(9), Err(UploadError::SessionIdInUse));
    assert_eq!(uploads.append(9, b""), Ok(3));
}

#[test]
fn append_reports_the_running_total() {
    let mut uploads = UploadManager::new();
    let id = uploads.begin().id;
    assert_eq!(uploads.append(id, b"hello"), Ok(5));
    assert_eq!(uploads.append(id, b""), Ok(5));
    assert_eq!(uploads.append(id, b" world"), Ok(11));
}

#[test]
fn upload_then_finalize_publishes_the_content() {
    let mut store = BlobStore::new();
    let mut uploads = UploadManager::new();
    let payload = b"hello world";
    let id = uploads.begin().id;
    uploads.append(id, &payload[..5]).unwrap();
    uploads.append(id, &payload[5..]).unwrap();
    let digest = Digest::compute(payload);
    let meta = uploads.finalize(id, &digest, &mut store).unwrap();
    assert_eq!(meta.size(), payload.len() as u64);
    assert_eq!(meta.digest(), digest);
    assert_eq!(store.get_metadata(&digest).unwrap().size(), payload.len() as u64);
    assert_eq!(store.open_read(&digest).unwrap().as_slice(), payload);
    assert!(!uploads.is_open(id));
}

#[test]
fn finalize_with_the_digest_of_other_content_fails() {
    let mut store = BlobStore::new();
    let mut uploads = UploadManager::new();
    let id = uploads.begin().id;
    uploads.append(id, b"payload").unwrap();
    let wrong = Digest::compute(b"something else");
    let r = uploads.finalize(id, &wrong, &mut store);
    assert_eq!(r.err(), Some(UploadError::DigestMismatch));
    assert!(store.get_metadata(&wrong).is_none());
    assert!(store.get_metadata(&Digest::compute(b"payload")).is_none());
    assert!(!uploads.is_open(id));
    assert_eq!(uploads.append(id, b"x"), Err(UploadError::SessionNotFound));
}

#[test]
fn two_sessions_with_the_same_content_both_finalize() {
    let mut store = BlobStore::new();
    let mut uploads = UploadManager::new();
    let digest = Digest::compute(b"same");
    let a = uploads.begin().id;
    let b = uploads.begin().id;
    uploads.append(a, b"same").unwrap();
    uploads.append(b, b"same").unwrap();
    let first = uploads.finalize(a, &digest, &mut store).unwrap();
    let second = uploads.finalize(b, &digest, &mut store).unwrap();
    assert_eq!(first.size(), 4);
    assert_eq!(second.size(), 4);
    assert_eq!(first.digest(), second.digest());
    assert_eq!(store.get_metadata(&digest).unwrap().size(), 4);
}

#[test]
fn unknown_session_is_not_found() {
    let mut store = BlobStore::new();
    let mut uploads = UploadManager::new();
    let digest = Digest::compute(b"");
    assert_eq!(uploads.append(1, b"x"), Err(UploadError::SessionNotFound));
    assert_eq!(uploads.finalize(1, &digest, &mut store).err(), Some(UploadError::SessionNotFound));
    assert!(store.get_metadata(&digest).is_none());
}

#[test]
fn finalized_session_is_not_found_again() {
    let mut store = BlobStore::new();
    let mut uploads = UploadManager::new();
    let id = uploads.begin().id;
    let digest = Digest::compute(b"");
    assert!(uploads.finalize(id, &digest, &mut store).is_ok());
    assert_eq!(uploads.append(id, b"x"), Err(UploadError::SessionNotFound));
    assert_eq!(uploads.finalize(id, &digest, &mut store).err(), Some(UploadError::SessionNotFound));
}

#[test]
fn discard_closes_a_session() {
    let mut uploads = UploadManager::new();
    let id = uploads.begin().id;
    assert!(uploads.discard(id));
    assert!(!uploads.discard(id));
    assert_eq!(uploads.append(id, b"x"), Err(UploadError::SessionNotFound));
}

#[test]
fn reaping_drops_only_idle_sessions() {
    let mut uploads = UploadManager::new();
    let old = uploads.open_session(1).unwrap().id;
    let written = uploads.open_session(2).unwrap().id;
    uploads.advance(100);
    let fresh = uploads.open_session(3).unwrap().id;
    assert_eq!(uploads.append(written, b"abc"), Ok(3));
    uploads.advance(150);
    uploads.advance(120);
    uploads.reap(50);
    assert!(!uploads.is_open(old));
    assert!(uploads.is_open(written));
    assert!(uploads.is_open(fresh));
    assert_eq!(uploads.append(old, b"x"), Err(UploadError::SessionNotFound));
    assert_eq!(uploads.append(written, b"d"), Ok(4));
    uploads.reap(49);
    assert!(uploads.is_open(written));
    assert!(!uploads.is_open(fresh));
    uploads.advance(200);
    uploads.reap(49);
    assert!(!uploads.is_open(written));
}

#[test]
fn reaping_keeps_sessions_at_the_limit() {
    let mut uploads = UploadManager::new();
    let id = uploads.begin().id;
    uploads.advance(10);
    uploads.reap(10);
    assert!(uploads.is_open(id));
    uploads.reap(9);
    assert!(!uploads.is_open(id));
    uploads.reap(0);
    assert!(!uploads.is_open(id));
}

#[test]
fn a_taken_id_gives_way_to_the_next_free_one() {
    let mut uploads = UploadManager::new();
    assert_eq!(uploads.begin_from(5).id, 5);
    assert_eq!(uploads.begin_from(5).id, 6);
    assert_eq!(uploads.begin_from(5).id, 7);
    assert_eq!(uploads.begin_from(6).id, 8);
    assert_eq!(uploads.begin_from(4).id, 4);
    assert_eq!(uploads.begin_from(9).written, 0);
    for id in [4u128, 5, 6, 7, 8, 9] {
        assert!(uploads.is_open(id));
    }
    assert!(!uploads.is_open(10));
}

#[test]
fn the_search_for_a_free_id_wraps_round() {
    let mut uploads = UploadManager::new();
    assert_eq!(uploads.begin_from(u128::MAX).id, u128::MAX);
    assert_eq!(uploads.begin_from(u128::MAX).id, 0);
    assert_eq!(uploads.begin_from(u128::MAX - 1).id, u128::MAX - 1);
    assert_eq!(uploads.begin_from(u128::MAX - 1).id, 1);
}

#[test]
fn beginning_never_disturbs_open_sessions() {
    let mut uploads = UploadManager::new();
    let first = uploads.begin_from(1).id;
    assert_eq!(uploads.append(first, b"abc"), Ok(3));
    let second = uploads.begin_from(1).id;
    assert_ne!(first, second);
    assert_eq!(uploads.append(second, b"z"), Ok(1));
    assert_eq!(uploads.append(first, b"d"), Ok(4));
}

#[test]
fn staged_bytes_can_be_read() {
    let mut uploads = UploadManager::new();
    let id = uploads.begin().id;
    assert_eq!(uploads.staged(id).unwrap().as_slice(), b"");
    uploads.append(id, b"abc").unwrap();
    uploads.append(id, b"de").unwrap();
    assert_eq!(uploads.staged(id).unwrap().as_slice(), b"abcde");
    assert!(uploads.staged(id.wrapping_add(1)).is_none());
}
