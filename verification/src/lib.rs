//! A post-quantum notary for software bills of materials: SHA3-256 digests
//! signed with Dilithium5, hex-encoded sidecar signature files, an
//! append-only JSON-lines transparency ledger, a policy engine that gates
//! verification on a key allowlist and a maximum signature age, and a batch
//! signer that signs a directory tree and a manifest of the results.
use vstd::prelude::*;

pub mod crypto;
pub mod hexcode;
pub mod jsontext;
pub mod key_provider;
pub mod ledger;
pub mod policy;
pub mod sign;
pub mod sign_all;
pub mod text;
pub mod verify;

verus! {

/// Malformed structured input: the byte shapes this library's own
/// formats refuse, each reported before any cryptographic work.
#[derive(Clone, Copy, Debug, PartialEq, Eq, Structural)]
pub enum FormatError {
    /// The bytes are not a JSON document.
    InvalidJson,
    /// The document's root is not a JSON object.
    RootNotObject,
    /// A bill of materials without a recognized format marker.
    MissingMarker,
    /// A sidecar object without a `signature` field.
    MissingSignatureField,
    /// A `signature` field that is not a hex string.
    InvalidHex,
    /// A sidecar timestamp that is not an RFC3339 instant.
    InvalidTimestamp,
}

} // verus!
