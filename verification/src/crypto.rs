//! Trusted bindings to the digest and signature primitives: SHA3-256 and
//! the Dilithium5 detached-signature scheme. Everything else in the crate
//! is verified against the names and contracts declared here.
use vstd::prelude::*;
use sha3::Digest;
use pqcrypto_traits::sign::DetachedSignature as DetachedSignatureApi;
use pqcrypto_traits::sign::PublicKey as PublicKeyApi;
use pqcrypto_traits::sign::SecretKey as SecretKeyApi;

verus! {

/// Byte length of a Dilithium5 public key.
pub const PUBLIC_KEY_LEN: usize = 2592;

/// Byte length of a Dilithium5 secret key.
pub const SECRET_KEY_LEN: usize = 4896;

/// Byte length of a Dilithium5 detached signature.
pub const SIGNATURE_LEN: usize = 4627;

/// The SHA3-256 digest of a byte string.
pub uninterp spec fn sha3_256_of(b: Seq<u8>) -> Seq<u8>;

/// The Dilithium5 detached signature over `msg` under the secret key
/// bytes `sk`. PQClean's Dilithium signs deterministically, so the
/// signature is a function of the message and the key alone.
pub uninterp spec fn dilithium_sig_of(msg: Seq<u8>, sk: Seq<u8>) -> Seq<u8>;

/// Whether Dilithium5 verification accepts `sig` over `msg` under the
/// public key bytes `pk`.
pub uninterp spec fn dilithium_verify_ok(pk: Seq<u8>, msg: Seq<u8>, sig: Seq<u8>) -> bool;

/// Relies on sha3::Sha3_256::digest: the SHA3-256 digest of the input,
/// 32 bytes, a function of the input alone.
#[verifier::external_body]
pub(crate) fn sha3_256(b: &[u8]) -> (r: Vec<u8>)
    ensures
        r@ == sha3_256_of(b@),
        r@.len() == 32,
{
    sha3::Sha3_256::digest(b).to_vec()
}

/// Relies on pqcrypto_dilithium::dilithium5::keypair: a fresh key pair
/// with the scheme's exact key lengths; by the scheme's correctness,
/// every signature made with the secret key verifies under the public
/// key.
#[verifier::external_body]
pub fn generate_keypair() -> (r: (Vec<u8>, Vec<u8>))
    ensures
        r.0@.len() == PUBLIC_KEY_LEN,
        r.1@.len() == SECRET_KEY_LEN,
        forall|msg: Seq<u8>| #[trigger] dilithium_verify_ok(r.0@, msg, dilithium_sig_of(msg, r.1@)),
{
    let (pk, sk) = pqcrypto_dilithium::dilithium5::keypair();
    (PublicKeyApi::as_bytes(&pk).to_vec(), SecretKeyApi::as_bytes(&sk).to_vec())
}

/// Relies on pqcrypto_dilithium::dilithium5::detached_sign, after
/// SecretKey::from_bytes, which only checks the length that the
/// precondition already gives: the deterministic Dilithium5 signature
/// over `hash`, always of the scheme's signature length.
#[verifier::external_body]
pub fn sign_hash(hash: &[u8], sk: &[u8]) -> (r: Vec<u8>)
    requires
        sk@.len() == SECRET_KEY_LEN,
    ensures
        r@ == dilithium_sig_of(hash@, sk@),
        r@.len() == SIGNATURE_LEN,
{
    let key: pqcrypto_dilithium::dilithium5::SecretKey = SecretKeyApi::from_bytes(sk).unwrap();
    let sig = pqcrypto_dilithium::dilithium5::detached_sign(hash, &key);
    DetachedSignatureApi::as_bytes(&sig).to_vec()
}

/// Relies on pqcrypto_dilithium::dilithium5::verify_detached_signature
/// and the byte decoders around it: acceptance is a function of the
/// three byte strings; a public key of the wrong length or a signature
/// longer than the scheme's is rejected by the decoders and counts as
/// not verifying.
#[verifier::external_body]
pub fn verify_signature(sig: &[u8], hash: &[u8], pk: &[u8]) -> (r: bool)
    ensures
        r == (pk@.len() == PUBLIC_KEY_LEN && sig@.len() <= SIGNATURE_LEN && dilithium_verify_ok(
            pk@,
            hash@,
            sig@,
        )),
{
    let pk: pqcrypto_dilithium::dilithium5::PublicKey = match PublicKeyApi::from_bytes(pk) {
        Ok(k) => k,
        Err(_) => {
            return false;
        },
    };
    let sig: pqcrypto_dilithium::dilithium5::DetachedSignature =
        match DetachedSignatureApi::from_bytes(sig) {
        Ok(s) => s,
        Err(_) => {
            return false;
        },
    };
    pqcrypto_dilithium::dilithium5::verify_detached_signature(&sig, hash, &pk).is_ok()
}

/// Checks signature bytes the way the scheme's decoder does: anything
/// up to the scheme's signature length is structurally acceptable.
pub fn load_signature(bytes: &[u8]) -> (r: Option<Vec<u8>>)
    ensures
        r matches Some(v) ==> v@ == bytes@ && bytes@.len() <= SIGNATURE_LEN,
        r is None ==> bytes@.len() > SIGNATURE_LEN,
{
    if bytes.len() <= SIGNATURE_LEN {
        Some(vstd::slice::slice_to_vec(bytes))
    } else {
        None
    }
}

} // verus!
