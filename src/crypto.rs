use vstd::prelude::*;

verus! {

/// Number of bytes in a public signing key.
pub const PUBLIC_KEY_LEN: usize = 32;

/// Number of bytes in a secret signing key.
pub const SECRET_KEY_LEN: usize = 64;

/// Number of bytes in a signature.
pub const SIGNATURE_LEN: usize = 64;

/// The SHA-512 digest of a byte string.
pub uninterp spec fn sha512_of(data: Seq<u8>) -> Seq<u8>;

/// The Ed25519 signature of `data` under the secret key `secret_key`.
pub uninterp spec fn signature_of(data: Seq<u8>, secret_key: Seq<u8>) -> Seq<u8>;

/// Whether `signature` is a valid Ed25519 signature of `data` under `public_key`.
pub uninterp spec fn signature_valid(signature: Seq<u8>, data: Seq<u8>, public_key: Seq<u8>) -> bool;

/// Relies on sodiumoxide::init: prepares the library for use from several threads; it may be
/// called more than once. Whether it succeeded is all it reports.
#[verifier::external_body]
pub(crate) fn init() -> (r: bool) {
    sodiumoxide::init().is_ok()
}

/// Relies on rand::random: a number drawn at random, of which nothing is known.
#[verifier::external_body]
pub(crate) fn random_u64() -> (r: u64) {
    rand::random::<u64>()
}

/// Relies on sodiumoxide::crypto::hash::sha512::hash: a 64-byte digest that depends on the
/// input bytes alone.
#[verifier::external_body]
pub(crate) fn sha512(data: &[u8]) -> (r: [u8; 64])
    ensures
        r@ == sha512_of(data@),
{
    sodiumoxide::crypto::hash::sha512::hash(data).0
}

/// Relies on sodiumoxide::crypto::sign::gen_keypair: a fresh random public key of 32 bytes
/// and the secret key of 64 bytes that belongs to it, which libsodium ends with the public
/// key. Every message signed with the secret key (`sign_detached`, 64 bytes) checks under the
/// public key (`verify_detached`): Ed25519's correctness for a generated key pair.
#[verifier::external_body]
pub(crate) fn generate_keypair() -> (r: (Vec<u8>, Vec<u8>))
    ensures
        r.0@.len() == PUBLIC_KEY_LEN,
        r.1@.len() == SECRET_KEY_LEN,
        r.1@.subrange(32, 64) == r.0@,
        forall|m: Seq<u8>| #[trigger] signature_valid(signature_of(m, r.1@), m, r.0@),
        forall|m: Seq<u8>| #[trigger] signature_of(m, r.1@).len() == SIGNATURE_LEN,
{
    let (pk, sk) = sodiumoxide::crypto::sign::gen_keypair();
    (pk.0.to_vec(), sk.0.to_vec())
}

/// Relies on sodiumoxide::crypto::sign::sign_detached: Ed25519 signing is deterministic, so
/// the 64-byte signature depends on the data and the key alone.
#[verifier::external_body]
pub(crate) fn sign_detached(data: &[u8], secret_key: &[u8]) -> (r: Vec<u8>)
    requires
        secret_key@.len() == SECRET_KEY_LEN,
    ensures
        r@ == signature_of(data@, secret_key@),
        r@.len() == SIGNATURE_LEN,
{
    match sodiumoxide::crypto::sign::SecretKey::from_slice(secret_key) {
        Some(sk) => sodiumoxide::crypto::sign::sign_detached(data, &sk).to_bytes().to_vec(),
        None => Vec::new(),
    }
}

/// Relies on sodiumoxide::crypto::sign::verify_detached: whether the signature is valid for
/// the data under the public key, which depends on the three byte strings alone. The
/// signature is first read by `Signature::from_bytes` and the key by `PublicKey::from_slice`;
/// bytes that either refuses are no valid signature.
#[verifier::external_body]
pub(crate) fn verify_detached(signature: &[u8], data: &[u8], public_key: &[u8]) -> (r: bool)
    ensures
        r == signature_valid(signature@, data@, public_key@),
{
    match (
        sodiumoxide::crypto::sign::Signature::from_bytes(signature),
        sodiumoxide::crypto::sign::PublicKey::from_slice(public_key),
    ) {
        (Ok(sig), Some(pk)) => sodiumoxide::crypto::sign::verify_detached(&sig, data, &pk),
        _ => false,
    }
}

} // verus!
