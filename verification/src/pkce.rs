//! The proof key for code exchange: a randomly drawn verifier and the
//! challenge derived from it by digest and encoding.
use vstd::prelude::*;
use vstd::string::StrSliceExecFns;
use vstd::utf8::encode_utf8;
use crate::b64::b64url;
use crate::b64::b64url_encode;
use crate::b64::lemma_b64url_len;

verus! {

/// The SHA-256 digest of a byte string. What the digest is on given bytes
/// is left to the hash function; only its presence and length are stated.
pub uninterp spec fn sha256_of(bytes: Seq<u8>) -> Seq<u8>;

/// Relies on `sha2::Sha256` (through `digest::Digest::digest`): the
/// SHA-256 digest of the input, 32 bytes, a function of the input alone.
#[verifier::external_body]
fn sha256(bytes: &[u8]) -> (r: Vec<u8>)
    ensures
        r@ == sha256_of(bytes@),
        r@.len() == 32,
{
    <sha2::Sha256 as sha2::Digest>::digest(bytes).to_vec()
}

/// Relies on `rand::random`: 32 bytes drawn from the thread-local
/// generator. Nothing is promised of their values.
#[verifier::external_body]
fn random_bytes32() -> (r: Vec<u8>)
    ensures
        r@.len() == 32,
{
    rand::random::<[u8; 32]>().to_vec()
}

/// The proof key for one code exchange: a randomly drawn verifier and the
/// challenge derived from it. Made fresh for every authorization attempt
/// and used at most once; never persisted.
pub struct PkceChallenge {
    /// The secret half, sent only to the token endpoint.
    pub verifier: String,
    /// The public half, sent in the authorization URL: the base64url form
    /// of the SHA-256 digest of the verifier's bytes.
    pub challenge: String,
}

impl PkceChallenge {
    /// Draws a fresh verifier and derives its challenge: the verifier is
    /// the base64url form of 32 random bytes, the challenge the base64url
    /// form of the SHA-256 digest of the verifier's bytes.
    pub fn generate() -> (r: PkceChallenge)
        ensures
            r.verifier@.len() == 43,
            r.challenge@ == b64url(sha256_of(encode_utf8(r.verifier@))),
            r.challenge@.len() == 43,
    {
        let seed = random_bytes32();
        let verifier = b64url_encode(seed.as_slice());
        proof {
            lemma_b64url_len(seed@);
        }
        let verifier_bytes = verifier.as_str().as_bytes_vec();
        let digest = sha256(verifier_bytes.as_slice());
        let challenge = b64url_encode(digest.as_slice());
        proof {
            lemma_b64url_len(digest@);
        }
        PkceChallenge { verifier, challenge }
    }
}

/// Draws a fresh anti-forgery state token: the base64url form of 32 random
/// bytes, 43 characters long.
pub fn new_state_token() -> (r: String)
    ensures
        r@.len() == 43,
{
    let seed = random_bytes32();
    proof {
        lemma_b64url_len(seed@);
    }
    b64url_encode(seed.as_slice())
}

} // verus!
