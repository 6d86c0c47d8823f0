//! The stored SHA-256 of each agent's plist, which tells `reload` whether a
//! plist changed since it was last loaded.
use vstd::prelude::*;
use sha2::Digest;
use crate::text::{concat, hex_digit, hex_lower, is_space, join_path, join_path_str, to_hex_lower, trim, trim_end, trim_start, trim_str};

verus! {

/// Why the state directory could not be chosen.
#[derive(Debug)]
pub enum StateError {
    /// Neither `LAGENT_STATE_DIR` nor `HOME` is set (as valid Unicode).
    HomeNotSet,
}

impl StateError {
    /// The text of the error.
    pub fn message(&self) -> (res: String)
        ensures
            res@ == "HOME environment variable not set"@,
    {
        String::from_str("HOME environment variable not set")
    }
}

/// The directory that holds the stored hashes: `LAGENT_STATE_DIR` when it is
/// set, otherwise `$HOME/.local/share/lagent`.
pub fn state_dir(override_dir: Option<String>, home: Option<String>) -> (res: Result<
    String,
    StateError,
>)
    ensures
        match override_dir {
            Some(d) => res matches Ok(r) && r@ == d@,
            None => match home {
                Some(h) => res matches Ok(r) && r@ == join_path(h@, ".local/share/lagent"@),
                None => res matches Err(StateError::HomeNotSet),
            },
        },
{
    match override_dir {
        Some(d) => Ok(d),
        None => match home {
            Some(h) => Ok(join_path_str(h.as_str(), ".local/share/lagent")),
            None => Err(StateError::HomeNotSet),
        },
    }
}

/// The file that holds the hash of the agent `label`: `<state_dir>/<label>.hash`.
pub fn hash_path(state_dir: &str, label: &str) -> (res: String)
    ensures
        res@ == join_path(state_dir@, label@ + ".hash"@),
{
    let name = concat(label, ".hash");
    join_path_str(state_dir, name.as_str())
}

/// The SHA-256 digest of `bytes`.
pub uninterp spec fn sha256_digest(bytes: Seq<u8>) -> Seq<u8>;

/// Hashes `bytes` with `sha2::Sha256` (new, update, finalize). Claimed: the
/// digest is [`sha256_digest`] of the bytes, and it is 32 bytes long, the
/// output size that `Sha256` declares.
#[verifier::external_body]
fn sha256(bytes: &[u8]) -> (res: Vec<u8>)
    ensures
        res@ == sha256_digest(bytes@),
        res@.len() == 32,
{
    let mut hasher = sha2::Sha256::new();
    hasher.update(bytes);
    hasher.finalize().to_vec()
}

/// The hash of a plist file's bytes: their SHA-256 digest in lower-case
/// hexadecimal.
pub fn compute_hash(contents: &[u8]) -> (res: String)
    ensures
        res@ == hex_lower(sha256_digest(contents@)),
        res@.len() == 64,
{
    let digest = sha256(contents);
    proof {
        lemma_hex_lower_len(digest@);
    }
    to_hex_lower(&digest)
}

/// [`hex_lower`] writes two digits per byte.
pub proof fn lemma_hex_lower_len(bytes: Seq<u8>)
    ensures
        hex_lower(bytes).len() == 2 * bytes.len(),
    decreases bytes.len(),
{
    if bytes.len() > 0 {
        lemma_hex_lower_len(bytes.drop_last());
    }
}

/// No character of [`hex_lower`] is white space.
pub proof fn lemma_hex_lower_no_space(bytes: Seq<u8>)
    ensures
        forall|i: int| 0 <= i < hex_lower(bytes).len() ==> !is_space(#[trigger] hex_lower(bytes)[i]),
    decreases bytes.len(),
{
    if bytes.len() > 0 {
        lemma_hex_lower_no_space(bytes.drop_last());
        let b = bytes.last();
        assert(!is_space(hex_digit((b / 16) as nat)));
        assert(!is_space(hex_digit((b % 16) as nat)));
        let prev = hex_lower(bytes.drop_last());
        let h = hex_lower(bytes);
        assert forall|i: int| 0 <= i < h.len() implies !is_space(#[trigger] h[i]) by {
            if i < prev.len() {
                assert(h[i] == prev[i]);
            }
        }
    }
}

/// The hash stored in a hash file, given the file's text: that text trimmed;
/// `None` when there is no hash file.
pub fn read_hash(content: Option<String>) -> (res: Option<String>)
    ensures
        match content {
            Some(c) => res matches Some(h) && h@ == trim(c@),
            None => res is None,
        },
{
    match content {
        Some(c) => Some(trim_str(c.as_str())),
        None => None,
    }
}

/// What is written of a plist's bytes is read back: the stored text of a
/// hash file written with [`compute_hash`] reads as that same hash.
pub proof fn lemma_written_hash_reads_back(contents: Seq<u8>)
    ensures
        trim(hex_lower(sha256_digest(contents))) == hex_lower(sha256_digest(contents)),
{
    let h = hex_lower(sha256_digest(contents));
    lemma_hex_lower_no_space(sha256_digest(contents));
    assert(trim_start(h) == h);
    assert(trim_end(h) == h);
}

} // verus!
