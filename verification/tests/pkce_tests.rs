use jack::b64::b64url_encode;
use jack::pkce::new_state_token;
use jack::pkce::PkceChallenge;
use sha2::Digest;

fn is_b64url_alphabet(s: &str) -> bool {
    s.chars().all(|c| {
        c.is_ascii_uppercase() || c.is_ascii_lowercase() || c.is_ascii_digit() || c == '-'
            || c == '_'
    })
}

#[test]
fn b64url_of_known_vectors() {
    assert_eq!(b64url_encode(b""), "");
    assert_eq!(b64url_encode(b"f"), "Zg");
    assert_eq!(b64url_encode(b"fo"), "Zm8");
    assert_eq!(b64url_encode(b"foo"), "Zm9v");
    assert_eq!(b64url_encode(b"foob"), "Zm9vYg");
    assert_eq!(b64url_encode(b"fooba"), "Zm9vYmE");
    assert_eq!(b64url_encode(b"foobar"), "Zm9vYmFy");
    assert_eq!(b64url_encode(&[0x00]), "AA");
    assert_eq!(b64url_encode(&[0xfb, 0xff]), "-_8");
}

#[test]
fn generated_verifier_and_challenge_have_the_pkce_shape() {
    let pkce = PkceChallenge::generate();
    assert_eq!(pkce.verifier.len(), 43);
    assert_eq!(pkce.challenge.len(), 43);
    assert!(is_b64url_alphabet(&pkce.verifier));
    assert!(is_b64url_alphabet(&pkce.challenge));
}

#[test]
fn challenge_is_the_encoded_digest_of_the_verifier() {
    let pkce = PkceChallenge::generate();
    let digest = sha2::Sha256::digest(pkce.verifier.as_bytes());
    assert_eq!(pkce.challenge, b64url_encode(&digest));
    assert_ne!(pkce.challenge, b64url_encode(pkce.verifier.as_bytes()));
}

#[test]
fn state_tokens_are_long_and_fresh() {
    let a = new_state_token();
    let b = new_state_token();
    assert_eq!(a.len(), 43);
    assert_eq!(b.len(), 43);
    assert!(is_b64url_alphabet(&a));
    assert_ne!(a, b);
}

#[test]
fn verifiers_differ_between_attempts() {
    let a = PkceChallenge::generate();
    let b = PkceChallenge::generate();
    assert_ne!(a.verifier, b.verifier);
}
