use reup::{expected_hash, sha256_hex, strip_hash_label, DownloadProgress, UpdateError};

const ABC_SHA256: &str = "ba7816bf8f01cfea414140de5dae2223b00361a396177a9cb410ff61f20015ad";
const EMPTY_SHA256: &str = "e3b0c44298fc1c149afbf4c8996fb92427ae41e4649b934ca495991b7852b855";

#[test]
fn sha256_of_known_inputs() {
    assert_eq!(sha256_hex(b"abc"), ABC_SHA256);
    assert_eq!(sha256_hex(b""), EMPTY_SHA256);
}

#[test]
fn expected_hash_is_lowercased_and_unlabelled() {
    assert_eq!(expected_hash("sha256:ABCDEF"), "abcdef");
    assert_eq!(expected_hash("SHA256:sha256:Ab12"), "ab12");
    assert_eq!(expected_hash("abc"), "abc");
    assert_eq!(expected_hash("sha256"), "sha256");
    assert_eq!(strip_hash_label("sha256:sha256:"), "");
    assert_eq!(strip_hash_label("SHA256:ab"), "SHA256:ab");
}

#[test]
fn progress_counts_every_byte() {
    let mut progress = DownloadProgress::new(3);
    assert_eq!(progress.downloaded(), 0);
    assert_eq!(progress.total(), 3);
    assert_eq!(progress.record_chunk(b"a"), 1);
    assert_eq!(progress.record_chunk(b""), 1);
    assert_eq!(progress.record_chunk(b"bc"), 3);
    assert_eq!(progress.downloaded(), 3);
    assert_eq!(progress.total(), 3);
}

#[test]
fn verification_accepts_the_right_digest() {
    let mut progress = DownloadProgress::new(0);
    progress.record_chunk(b"ab");
    progress.record_chunk(b"c");
    assert_eq!(progress.verify(ABC_SHA256), Ok(()));
    assert_eq!(progress.verify(&expected_hash(&format!("sha256:{}", ABC_SHA256.to_uppercase()))), Ok(()));
}

#[test]
fn verification_rejects_a_wrong_digest() {
    let mut progress = DownloadProgress::new(0);
    progress.record_chunk(b"abd");
    assert_eq!(
        progress.verify(ABC_SHA256),
        Err(UpdateError::HashMismatch {
            expected: ABC_SHA256.to_string(),
            actual: sha256_hex(b"abd"),
        })
    );
    let empty = DownloadProgress::new(0);
    assert_eq!(empty.verify(EMPTY_SHA256), Ok(()));
}

#[test]
fn stopping_discards_what_was_received() {
    let mut progress = DownloadProgress::new(10);
    assert_eq!(progress.record_chunk(b"abc"), 3);
    assert_eq!(progress.progress_reply(false), Ok(()));
    assert_eq!(progress.downloaded(), 3);
    assert_eq!(progress.progress_reply(true), Err(UpdateError::Cancelled));
    assert_eq!(progress.downloaded(), 0);
    assert_eq!(progress.total(), 10);
}
