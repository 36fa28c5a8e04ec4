//! Extracted shader-pack data: stable identifiers of extracted profiles.
use sha2::Digest;
use vstd::prelude::*;

use crate::text::{hex_encode, hex_lower, lemma_hex_lower_len};

verus! {

/// The SHA-256 digest of the UTF-8 encoding of a text.
pub uninterp spec fn sha256_of_text(text: Seq<char>) -> Seq<u8>;

/// `sha2::Sha256::digest` of the text's UTF-8 bytes: the digest named
/// [`sha256_of_text`], which is 32 bytes long.
#[verifier::external_body]
fn sha256_digest(text: &str) -> (res: Vec<u8>)
    ensures
        res@ == sha256_of_text(text@),
        res@.len() == 32,
{
    sha2::Sha256::digest(text.as_bytes()).to_vec()
}

/// The identifier of a profile from the digest of its name: lower-case hex.
pub fn profile_id_from_digest(digest: &Vec<u8>) -> (res: String)
    ensures
        res@ == hex_lower(digest@),
        res@.len() == 2 * digest@.len(),
{
    proof {
        lemma_hex_lower_len(digest@);
    }
    hex_encode(digest)
}

/// The identifier of a shader version's profile: the lower-case hex SHA-256
/// of `version_id/profile_name`, so re-extracting a version keeps its ids.
pub fn deterministic_profile_id(version_id: &str, profile_name: &str) -> (res: String)
    ensures
        res@ == hex_lower(sha256_of_text(version_id@ + "/"@ + profile_name@)),
        res@.len() == 64,
{
    let input = String::from_str(version_id).concat("/").concat(profile_name);
    let hash = sha256_digest(input.as_str());
    profile_id_from_digest(&hash)
}

} // verus!
