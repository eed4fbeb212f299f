//! PKCE (RFC 7636) verifier/challenge generation.
use vstd::prelude::*;
use vstd::string::*;
use vstd::utf8::encode_utf8;

use crate::hash::{base64_text, encode_base64, is_url_safe, sha256, sha256_of};
use crate::text::bytes_of;

verus! {

/// A verifier and its challenge.
#[derive(Debug)]
pub struct Pkce {
    pub verifier: String,
    pub challenge: String,
}

/// How many octets a verifier is made of.
pub const VERIFIER_OCTETS: usize = 32;

/// `getrandom::fill`: that many random octets, or the error in words. Which
/// octets, chance decides.
#[verifier::external_body]
fn random_octets(n: usize) -> (r: Result<Vec<u8>, String>)
    ensures
        match r {
            Ok(bytes) => bytes@.len() == n,
            Err(_) => true,
        },
{
    let mut bytes = vec![0u8; n];
    getrandom::fill(&mut bytes).map_err(|e| e.to_string())?;
    Ok(bytes)
}

/// The S256 challenge of a verifier.
pub open spec fn challenge_of(verifier: Seq<char>) -> Seq<char> {
    base64_text(sha256_of(encode_utf8(verifier)))
}

/// The S256 challenge of a verifier.
pub fn challenge_s256(verifier: &str) -> (r: String)
    ensures
        r@ == challenge_of(verifier@),
{
    let bytes = bytes_of(verifier);
    let digest = sha256(bytes.as_slice());
    encode_base64(digest.as_slice())
}

/// Whether a verifier has the shape RFC 7636 asks for: 43 URL-safe characters.
pub open spec fn well_shaped(verifier: Seq<char>) -> bool {
    &&& verifier.len() == 43
    &&& forall|i: int| 0 <= i < verifier.len() ==> is_url_safe(#[trigger] verifier[i])
}

impl Pkce {
    /// The verifier made of some octets, and its challenge.
    pub fn from_octets(bytes: &Vec<u8>) -> (r: Self)
        ensures
            r.verifier@ == base64_text(bytes@),
            r.challenge@ == challenge_of(r.verifier@),
            bytes@.len() == VERIFIER_OCTETS ==> well_shaped(r.verifier@),
    {
        let verifier = encode_base64(bytes.as_slice());
        let challenge = challenge_s256(verifier.as_str());
        Pkce { verifier, challenge }
    }

    /// A fresh verifier and its challenge; the error is the system's, where it
    /// gives no random octets.
    pub fn generate() -> (r: Result<Self, String>)
        ensures
            match r {
                Ok(p) => well_shaped(p.verifier@) && p.challenge@ == challenge_of(p.verifier@),
                Err(_) => true,
            },
    {
        match random_octets(VERIFIER_OCTETS) {
            Ok(bytes) => Ok(Pkce::from_octets(&bytes)),
            Err(e) => Err(e),
        }
    }
}

} // verus!
