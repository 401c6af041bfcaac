//! The signing capability: a provider owns key material and signs digest
//! bytes. Two providers exist, one around key material read from a key
//! file, one a self-contained stand-in for a remote key service. The
//! shell that does the reading, and the artificial latency the remote
//! stand-in once carried, stay outside the library.
use vstd::prelude::*;
use crate::crypto::{
    dilithium_sig_of, dilithium_verify_ok, generate_keypair, sign_hash, PUBLIC_KEY_LEN,
    SECRET_KEY_LEN,
};

verus! {

/// A signing failure: the provider's key material does not have the
/// scheme's secret-key length.
#[derive(Clone, Copy, Debug, PartialEq, Eq, Structural)]
pub enum KeyError {
    BadKeyLength,
}

/// Provider of signing capability over a secret key it owns.
pub trait KeyProvider {
    /// The secret-key bytes this provider signs with.
    spec fn secret_key(&self) -> Seq<u8>;

    /// Signs `data` with the provider's key; fails exactly when the key
    /// material is not a secret key of the scheme's length.
    fn sign(&self, data: &[u8]) -> (r: Result<Vec<u8>, KeyError>)
        ensures
            r matches Ok(sig) ==> self.secret_key().len() == SECRET_KEY_LEN && sig@
                == dilithium_sig_of(data@, self.secret_key()),
            r is Err ==> self.secret_key().len() != SECRET_KEY_LEN,
    ;
}

/// Signs with a secret key that the caller read from a key file; the
/// reading itself happens outside the library.
pub struct FileSystemProvider {
    key_bytes: Vec<u8>,
}

impl FileSystemProvider {
    /// Wraps secret-key bytes read from the filesystem.
    pub fn new(secret_key: Vec<u8>) -> (r: Self)
        ensures
            r.secret_key() == secret_key@,
    {
        FileSystemProvider { key_bytes: secret_key }
    }
}

impl KeyProvider for FileSystemProvider {
    closed spec fn secret_key(&self) -> Seq<u8> {
        self.key_bytes@
    }

    fn sign(&self, data: &[u8]) -> (r: Result<Vec<u8>, KeyError>)
        ensures
            r matches Ok(sig) ==> self.secret_key().len() == SECRET_KEY_LEN && sig@
                == dilithium_sig_of(data@, self.secret_key()),
            r is Err ==> self.secret_key().len() != SECRET_KEY_LEN,
    {
        if self.key_bytes.len() == SECRET_KEY_LEN {
            Ok(sign_hash(data, self.key_bytes.as_slice()))
        } else {
            Err(KeyError::BadKeyLength)
        }
    }
}

/// A stand-in for a remote key service: one fixed key pair per provider
/// value, so the same service identity signs consistently and its public
/// key can be exported once for verification.
pub struct MockKmsProvider {
    key_bytes: Vec<u8>,
    public_key_bytes: Vec<u8>,
}

impl MockKmsProvider {
    /// The provider's public key bytes.
    pub closed spec fn public_key(&self) -> Seq<u8> {
        self.public_key_bytes@
    }

    /// Creates a provider with a fresh key pair of the scheme's exact
    /// lengths; signatures under its secret key verify under its public
    /// key.
    pub fn new() -> (r: Self)
        ensures
            r.secret_key().len() == SECRET_KEY_LEN,
            r.public_key().len() == PUBLIC_KEY_LEN,
            forall|msg: Seq<u8>|
                #[trigger] dilithium_verify_ok(
                    r.public_key(),
                    msg,
                    dilithium_sig_of(msg, r.secret_key()),
                ),
    {
        let (pk, sk) = generate_keypair();
        MockKmsProvider { key_bytes: sk, public_key_bytes: pk }
    }

    /// Exports the public key for verification.
    pub fn export_public_key(&self) -> (r: Vec<u8>)
        ensures
            r@ == self.public_key(),
    {
        vstd::slice::slice_to_vec(self.public_key_bytes.as_slice())
    }
}

impl KeyProvider for MockKmsProvider {
    closed spec fn secret_key(&self) -> Seq<u8> {
        self.key_bytes@
    }

    fn sign(&self, data: &[u8]) -> (r: Result<Vec<u8>, KeyError>)
        ensures
            r matches Ok(sig) ==> self.secret_key().len() == SECRET_KEY_LEN && sig@
                == dilithium_sig_of(data@, self.secret_key()),
            r is Err ==> self.secret_key().len() != SECRET_KEY_LEN,
    {
        if self.key_bytes.len() == SECRET_KEY_LEN {
            Ok(sign_hash(data, self.key_bytes.as_slice()))
        } else {
            Err(KeyError::BadKeyLength)
        }
    }
}

impl Default for MockKmsProvider {
    fn default() -> (r: Self)
        ensures
            r.secret_key().len() == SECRET_KEY_LEN,
            r.public_key().len() == PUBLIC_KEY_LEN,
    {
        MockKmsProvider::new()
    }
}

} // verus!
