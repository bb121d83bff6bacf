//! The library's window onto its outside crates: each function here wraps
//! exactly one outside call, and its contract states only what that call's
//! source and documentation show. Everything else in the crate is verified
//! against these contracts.

use vstd::prelude::*;

verus! {

/// The URL-safe, unpadded base64 text of a byte sequence.
pub uninterp spec fn b64_of(b: Seq<u8>) -> Seq<char>;

/// The SHA-512 digest of the UTF-8 bytes of a text.
pub uninterp spec fn hash_of_str(s: Seq<char>) -> Seq<u8>;

/// The Ed25519 signature of a message under a secret key. Signing here is
/// deterministic: the signature is a function of the message and the key.
pub uninterp spec fn sig_of(msg: Seq<u8>, sk: Seq<u8>) -> Seq<u8>;

/// Relies on base64::encode_config with the URL-safe alphabet and no
/// padding: the result is the base64 text of the input bytes.
#[verifier::external_body]
pub(crate) fn b64_encode(b: &Vec<u8>) -> (r: String)
    ensures
        r@ == b64_of(b@),
{
    base64::encode_config(b, base64::Config::new(base64::CharacterSet::UrlSafe, false))
}

/// Relies on base64::decode_config with the same configuration: decoding
/// inverts encoding, so the encoding of any byte sequence decodes back to
/// exactly that sequence. On text that is not such an encoding the call
/// decides for itself; nothing is claimed of it.
#[verifier::external_body]
pub(crate) fn b64_decode(s: &str) -> (r: Option<Vec<u8>>)
    ensures
        forall|b: Seq<u8>| s@ == b64_of(b) ==> r is Some && r->0@ == b,
{
    base64::decode_config(s, base64::Config::new(base64::CharacterSet::UrlSafe, false)).ok()
}

/// Relies on sodiumoxide::crypto::hash::hash (SHA-512): the digest is 64
/// bytes and depends on the input bytes alone.
#[verifier::external_body]
pub(crate) fn hash_str(s: &str) -> (r: Vec<u8>)
    ensures
        r@ == hash_of_str(s@),
        r@.len() == 64,
{
    sodiumoxide::crypto::hash::hash(s.as_bytes()).as_ref().to_vec()
}

/// Relies on sodiumoxide::crypto::sign::sign_detached (Ed25519): the
/// signature is 64 bytes and a function of the message and the secret key.
#[verifier::external_body]
pub(crate) fn sign_bytes(msg: &Vec<u8>, sk: &Vec<u8>) -> (r: Vec<u8>)
    requires
        sk@.len() == 64,
    ensures
        r@ == sig_of(msg@, sk@),
        r@.len() == 64,
{
    let sk = sodiumoxide::crypto::sign::SecretKey::from_slice(sk).unwrap();
    sodiumoxide::crypto::sign::sign_detached(msg, &sk).to_bytes().to_vec()
}

/// Relies on sodiumoxide::crypto::sign::gen_keypair: a fresh Ed25519 pair,
/// 32 public and 64 secret bytes. The pair is random; nothing more is
/// claimed of it.
#[verifier::external_body]
pub(crate) fn gen_keypair() -> (r: (Vec<u8>, Vec<u8>))
    ensures
        r.0@.len() == 32,
        r.1@.len() == 64,
{
    let (pk, sk) = sodiumoxide::crypto::sign::gen_keypair();
    (pk.as_ref().to_vec(), sk.as_ref().to_vec())
}

/// Relies on sodiumoxide::randombytes::randombytes: a vector of exactly the
/// requested number of unpredictable bytes.
#[verifier::external_body]
pub(crate) fn random_bytes(n: usize) -> (r: Vec<u8>)
    ensures
        r@.len() == n as nat,
{
    sodiumoxide::randombytes::randombytes(n)
}

} // verus!
