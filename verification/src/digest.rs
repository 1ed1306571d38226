use sha2::Digest;
use vstd::prelude::*;

use crate::text::{all_ascii, ascii_lower, chars_of, lowercase_text, string_of, to_lowercase};
use crate::update::UpdateError;

verus! {

/// The lower-case hexadecimal digit for a value below sixteen.
pub open spec fn hex_digit(n: nat) -> char {
    if n < 10 {
        (n + '0' as int) as char
    } else {
        (n - 10 + 'a' as int) as char
    }
}

/// Bytes spelled as lower-case hexadecimal, two digits per byte, high nibble first.
pub open spec fn hex_lower(bytes: Seq<u8>) -> Seq<char>
    decreases bytes.len(),
{
    if bytes.len() == 0 {
        Seq::<char>::empty()
    } else {
        hex_lower(bytes.drop_last()) + seq![
            hex_digit((bytes.last() / 16) as nat),
            hex_digit((bytes.last() % 16) as nat),
        ]
    }
}

/// What the SHA-256 hash function gives for `data`.
pub uninterp spec fn sha256(data: Seq<u8>) -> Seq<u8>;

/// `hex::encode`: the bytes as a lower-case hexadecimal string, two digits per
/// byte, high nibble first (the crate's documented behaviour).
#[verifier::external_body]
fn hex_encode(data: &[u8]) -> (res: String)
    ensures
        res@ == hex_lower(data@),
{
    hex::encode(data)
}

/// `sha2::Sha256::digest`: the SHA-256 digest of `data`, named by `sha256`,
/// which is 32 bytes long.
#[verifier::external_body]
fn sha256_digest(data: &[u8]) -> (res: Vec<u8>)
    ensures
        res@ == sha256(data@),
        res@.len() == 32,
{
    sha2::Sha256::digest(data).to_vec()
}

/// The SHA-256 digest of `data` in lower-case hexadecimal.
pub fn sha256_hex(data: &[u8]) -> (res: String)
    ensures
        res@ == hex_lower(sha256(data@)),
{
    let digest = sha256_digest(data);
    hex_encode(digest.as_slice())
}

/// The algorithm label that GitHub puts before an asset digest.
pub open spec fn hash_label() -> Seq<char> {
    seq!['s', 'h', 'a', '2', '5', '6', ':']
}

/// `s` with every leading repetition of `sha256:` removed.
pub open spec fn strip_hash_labels(s: Seq<char>) -> Seq<char>
    decreases s.len(),
{
    if s.len() >= 7 && s.take(7) == hash_label() {
        strip_hash_labels(s.skip(7))
    } else {
        s
    }
}

/// The hexadecimal digest that an asset's reported digest is compared with:
/// the digest lower-cased as `str::to_lowercase` does, with leading `sha256:`
/// labels removed.
pub open spec fn expected_hash_text(digest: Seq<char>) -> Seq<char> {
    strip_hash_labels(lowercase_text(digest))
}

fn label_at(cs: &Vec<char>, i: usize) -> (res: bool)
    requires
        i <= cs@.len(),
    ensures
        res == (cs@.skip(i as int).len() >= 7 && cs@.skip(i as int).take(7) == hash_label()),
{
    if cs.len() - i < 7 {
        return false;
    }
    let res = cs[i] == 's' && cs[i + 1] == 'h' && cs[i + 2] == 'a' && cs[i + 3] == '2' && cs[i + 4]
        == '5' && cs[i + 5] == '6' && cs[i + 6] == ':';
    proof {
        let w = cs@.skip(i as int).take(7);
        if res {
            assert(w =~= hash_label());
        } else {
            if w == hash_label() {
                assert(w[0] == cs@[i as int]);
                assert(w[1] == cs@[i + 1]);
                assert(w[2] == cs@[i + 2]);
                assert(w[3] == cs@[i + 3]);
                assert(w[4] == cs@[i + 4]);
                assert(w[5] == cs@[i + 5]);
                assert(w[6] == cs@[i + 6]);
            }
        }
    }
    res
}

/// Removes every leading `sha256:` label from an already lower-cased digest.
pub fn strip_hash_label(lowered: &str) -> (res: String)
    ensures
        res@ == strip_hash_labels(lowered@),
{
    let cs = chars_of(lowered);
    let mut i: usize = 0;
    assert(cs@.skip(0) =~= cs@);
    let mut more = label_at(&cs, i);
    while more
        invariant
            i <= cs@.len(),
            strip_hash_labels(cs@) == strip_hash_labels(cs@.skip(i as int)),
            more == (cs@.skip(i as int).len() >= 7 && cs@.skip(i as int).take(7) == hash_label()),
        decreases cs@.len() - i,
    {
        assert(cs@.skip(i as int).len() == cs@.len() - i);
        assert(cs@.skip(i as int).skip(7) =~= cs@.skip(i + 7));
        i = i + 7;
        more = label_at(&cs, i);
    }
    let rest = vstd::slice::slice_subrange(cs.as_slice(), i, cs.len());
    assert(rest@ =~= cs@.skip(i as int));
    string_of(rest)
}

/// The hexadecimal digest to compare a download with, from the digest that
/// GitHub reports for an asset (such as `sha256:ABC...`).
pub fn expected_hash(digest: &str) -> (res: String)
    ensures
        res@ == expected_hash_text(digest@),
{
    let lowered = to_lowercase(digest);
    assert(lowered@ == lowercase_text(digest@));
    strip_hash_label(lowered.as_str())
}

/// The bytes of an asset download received so far and the size that the
/// server announced (`0` when unknown).
pub struct DownloadProgress {
    received: Vec<u8>,
    total: u64,
}

impl DownloadProgress {
    /// The bytes received so far, in order.
    pub closed spec fn bytes(&self) -> Seq<u8> {
        self.received@
    }

    /// The announced size of the download (`0` when unknown).
    pub closed spec fn announced(&self) -> u64 {
        self.total
    }

    /// Starts a download whose announced size is `total`.
    pub fn new(total: u64) -> (res: Self)
        ensures
            res.bytes() == Seq::<u8>::empty(),
            res.announced() == total,
    {
        DownloadProgress { received: Vec::new(), total }
    }

    /// Records a chunk of bytes as it arrives and returns how many bytes have
    /// arrived in all, the first number to report to the progress callback.
    pub fn record_chunk(&mut self, chunk: &[u8]) -> (downloaded: u64)
        requires
            old(self).bytes().len() + chunk@.len() <= u64::MAX,
        ensures
            final(self).bytes() == old(self).bytes() + chunk@,
            final(self).announced() == old(self).announced(),
            downloaded == final(self).bytes().len(),
    {
        self.received.extend_from_slice(chunk);
        assert(self.received@ =~= old(self).received@ + chunk@);
        self.received.len() as u64
    }

    /// Acts on the progress callback's answer after a chunk: when it asks to
    /// stop, the download is cancelled, the bytes received so far are
    /// discarded and the answer is `Cancelled`; otherwise nothing changes and
    /// the download goes on.
    pub fn progress_reply(&mut self, stop: bool) -> (res: Result<(), UpdateError>)
        ensures
            stop ==> res == Err::<(), UpdateError>(UpdateError::Cancelled),
            stop ==> final(self).bytes() == Seq::<u8>::empty(),
            !stop ==> res == Ok::<(), UpdateError>(()),
            !stop ==> final(self).bytes() == old(self).bytes(),
            final(self).announced() == old(self).announced(),
    {
        if stop {
            self.received.clear();
            Err(UpdateError::Cancelled)
        } else {
            Ok(())
        }
    }

    /// How many bytes have arrived.
    pub fn downloaded(&self) -> (res: u64)
        ensures
            res == self.bytes().len(),
    {
        self.received.len() as u64
    }

    /// The announced size of the download (`0` when unknown).
    pub fn total(&self) -> (res: u64)
        ensures
            res == self.announced(),
    {
        self.total
    }

    /// Checks the received bytes against the expected hexadecimal SHA-256
    /// digest: `Ok` when the lower-case hexadecimal digest of the bytes is
    /// exactly `expected`, otherwise `HashMismatch` with both digests.
    pub fn verify(&self, expected: &str) -> (res: Result<(), UpdateError>)
        ensures
            hex_lower(sha256(self.bytes())) == expected@ ==> res is Ok,
            hex_lower(sha256(self.bytes())) != expected@ ==> (res matches Err(
                UpdateError::HashMismatch { expected: e, actual: a },
            ) && e@ == expected@ && a@ == hex_lower(sha256(self.bytes()))),
    {
        let actual = sha256_hex(self.received.as_slice());
        let expected_owned = expected.to_owned();
        if actual == expected_owned {
            Ok(())
        } else {
            Err(UpdateError::HashMismatch { expected: expected_owned, actual })
        }
    }
}

/// Whether `c` is a lower-case hexadecimal digit.
pub open spec fn is_hex_digit(c: char) -> bool {
    ('0' <= c && c <= '9') || ('a' <= c && c <= 'f')
}

proof fn lemma_hex_lower_digits(bytes: Seq<u8>)
    ensures
        forall|i: int| 0 <= i < hex_lower(bytes).len() ==> is_hex_digit(#[trigger] hex_lower(bytes)[i]),
        hex_lower(bytes).len() == 2 * bytes.len(),
    decreases bytes.len(),
{
    if bytes.len() > 0 {
        lemma_hex_lower_digits(bytes.drop_last());
        let h = hex_lower(bytes.drop_last());
        let hi = hex_digit((bytes.last() / 16) as nat);
        let lo = hex_digit((bytes.last() % 16) as nat);
        assert(is_hex_digit(hi));
        assert(is_hex_digit(lo));
        assert forall|i: int| 0 <= i < hex_lower(bytes).len() implies is_hex_digit(
            #[trigger] hex_lower(bytes)[i],
        ) by {
            if i < h.len() {
                assert(hex_lower(bytes)[i] == h[i]);
            } else if i == h.len() {
                assert(hex_lower(bytes)[i] == hi);
            } else {
                assert(hex_lower(bytes)[i] == lo);
            }
        }
    }
}

proof fn lemma_label_then_hex_strips_to_hex(bytes: Seq<u8>)
    ensures
        strip_hash_labels(hash_label() + hex_lower(bytes)) == hex_lower(bytes),
{
    let h = hex_lower(bytes);
    let s = hash_label() + h;
    assert(s.take(7) =~= hash_label());
    assert(s.skip(7) =~= h);
    lemma_hex_lower_digits(bytes);
    if h.len() >= 7 {
        assert(is_hex_digit(h[0]));
        assert(hash_label()[0] == 's');
        assert(h.take(7)[0] == h[0]);
        assert(h.take(7) != hash_label());
    }
    assert(strip_hash_labels(h) == h);
    assert(strip_hash_labels(s) == strip_hash_labels(s.skip(7)));
}

/// A digest reported as `sha256:` followed by the lower-case hexadecimal
/// SHA-256 of some bytes is compared exactly with that hexadecimal text: so a
/// download whose bytes have that digest passes the check, and only such a
/// download (see `DownloadProgress::verify`).
pub proof fn lemma_labelled_digest_expects_its_hex(bytes: Seq<u8>)
    ensures
        strip_hash_labels(hash_label() + hex_lower(sha256(bytes))) == hex_lower(sha256(bytes)),
{
    lemma_label_then_hex_strips_to_hex(sha256(bytes));
}

/// The digest GitHub reports for an asset, `sha256:` followed by lower-case
/// hexadecimal, gives exactly that hexadecimal text as the hash a download
/// is checked against (what `expected_hash` and `select_download` return):
/// the label goes, whatever the case of the text it came in.
pub proof fn lemma_expected_hash_of_github_digest(bytes: Seq<u8>)
    ensures
        expected_hash_text(seq!['s', 'h', 'a', '2', '5', '6', ':'] + hex_lower(bytes)) == hex_lower(
            bytes,
        ),
        expected_hash_text(seq!['s', 'h', 'a', '2', '5', '6', ':'] + hex_lower(sha256(bytes)))
            == hex_lower(sha256(bytes)),
{
    lemma_expected_hash_of_labelled_hex(bytes);
    lemma_expected_hash_of_labelled_hex(sha256(bytes));
}

proof fn lemma_expected_hash_of_labelled_hex(bytes: Seq<u8>)
    ensures
        expected_hash_text(seq!['s', 'h', 'a', '2', '5', '6', ':'] + hex_lower(bytes)) == hex_lower(
            bytes,
        ),
{
    let h = hex_lower(bytes);
    let d = seq!['s', 'h', 'a', '2', '5', '6', ':'] + h;
    assert(hash_label() =~= seq!['s', 'h', 'a', '2', '5', '6', ':']);
    lemma_hex_lower_digits(bytes);
    assert forall|i: int| 0 <= i < d.len() implies (#[trigger] d[i] as int) < 128 && !('A' <= d[i]
        && d[i] <= 'Z') by {
        if i >= 7 {
            assert(d[i] == h[i - 7]);
            assert(is_hex_digit(h[i - 7]));
        }
    }
    assert(all_ascii(d));
    assert(d.map_values(|c: char| ascii_lower(c)) =~= d);
    assert(lowercase_text(d) == d);
    lemma_label_then_hex_strips_to_hex(bytes);
}

/// Removing the labels twice is the same as removing them once.
pub proof fn lemma_strip_hash_labels_idempotent(s: Seq<char>)
    ensures
        strip_hash_labels(strip_hash_labels(s)) == strip_hash_labels(s),
    decreases s.len(),
{
    if s.len() >= 7 && s.take(7) == hash_label() {
        lemma_strip_hash_labels_idempotent(s.skip(7));
    }
}

} // verus!
