//! The signing pipeline: validate a bill of materials, digest it, sign
//! the digest, wrap the signature into a sidecar, and render the ledger
//! line and the mirror payload. The shell reads the artifact, persists
//! the outputs, and delivers the payload best-effort.
use vstd::prelude::*;
use crate::crypto::{dilithium_sig_of, sha3_256, sha3_256_of, SECRET_KEY_LEN};
use crate::hexcode::{hex_encode, hex_of};
use crate::jsontext::{emit_obj, obj_bytes, pairs_view};
use crate::key_provider::{KeyError, KeyProvider};
use crate::ledger::ledger_line_of;
use crate::text::{ascii_bytes, bytes_eq, str_bytes};
use crate::FormatError;

verus! {

/// Whether the bytes are one JSON document, and whether its root is an
/// object.
pub uninterp spec fn json_root_object(b: Seq<u8>) -> Option<bool>;

/// The string value of the named top-level field of a JSON object
/// document; `None` where the document, the field, or a string value
/// there is missing.
pub uninterp spec fn json_str_field(b: Seq<u8>, key: Seq<char>) -> Option<Seq<u8>>;

/// Relies on serde_json::from_slice and Value::is_object: whether the
/// bytes are one JSON document with an object root, a function of the
/// bytes alone.
#[verifier::external_body]
pub(crate) fn json_root_object_x(b: &[u8]) -> (r: Option<bool>)
    ensures
        r == json_root_object(b@),
{
    match serde_json::from_slice::<serde_json::Value>(b) {
        Ok(v) => Some(v.is_object()),
        Err(_) => None,
    }
}

/// Relies on serde_json::from_slice, Value::get and Value::as_str: the
/// named top-level string field of the document, a function of the
/// bytes and the key alone.
#[verifier::external_body]
pub(crate) fn json_str_field_x(b: &[u8], key: &str) -> (r: Option<Vec<u8>>)
    ensures
        r matches Some(v) ==> json_str_field(b@, key@) == Some(v@),
        r is None ==> json_str_field(b@, key@) is None,
{
    let doc: serde_json::Value = match serde_json::from_slice(b) {
        Ok(v) => v,
        Err(_) => {
            return None;
        },
    };
    match doc.get(key).and_then(|v| v.as_str()) {
        Some(s) => Some(s.as_bytes().to_vec()),
        None => None,
    }
}

/// A recognized bill of materials: a JSON object that declares the
/// CycloneDX format or carries an SPDX version.
pub open spec fn sbom_valid(b: Seq<u8>) -> bool {
    json_root_object(b) == Some(true) && (json_str_field(b, "bomFormat"@) == Some(
        ascii_bytes("CycloneDX"@),
    ) || json_str_field(b, "spdxVersion"@) is Some)
}

/// Validates that the bytes are a recognizable bill of materials,
/// telling bad JSON, a non-object root and a missing format marker
/// apart.
pub fn validate_sbom_json(bytes: &[u8]) -> (r: Result<(), FormatError>)
    ensures
        r is Ok <==> sbom_valid(bytes@),
        r matches Err(e) ==> (e == FormatError::InvalidJson <==> json_root_object(bytes@) is None),
        r matches Err(e) ==> (e == FormatError::RootNotObject <==> json_root_object(bytes@)
            == Some(false)),
        r matches Err(e) ==> (e == FormatError::MissingMarker <==> json_root_object(bytes@)
            == Some(true)),
{
    match json_root_object_x(bytes) {
        None => {
            return Err(FormatError::InvalidJson);
        },
        Some(false) => {
            return Err(FormatError::RootNotObject);
        },
        Some(true) => {},
    }
    proof {
        reveal_strlit("CycloneDX");
    }
    let cyclone = str_bytes("CycloneDX");
    let has_cyclone = match json_str_field_x(bytes, "bomFormat") {
        Some(v) => bytes_eq(v.as_slice(), cyclone.as_slice()),
        None => false,
    };
    if has_cyclone {
        return Ok(());
    }
    match json_str_field_x(bytes, "spdxVersion") {
        Some(_) => Ok(()),
        None => Err(FormatError::MissingMarker),
    }
}

/// The sidecar's field names, in writing order.
pub open spec fn sidecar_keys() -> (Seq<u8>, Seq<u8>) {
    (ascii_bytes("signature"@), ascii_bytes("timestamp"@))
}

/// The sidecar wrapping a signature and its issuance timestamp: a flat
/// JSON object holding the hex-encoded signature and the timestamp.
pub open spec fn sidecar_bytes_of(sig: Seq<u8>, ts: Seq<u8>) -> Seq<u8> {
    obj_bytes(seq![(sidecar_keys().0, hex_of(sig)), (sidecar_keys().1, ts)])
}

/// Wraps signature bytes and a timestamp into the sidecar form.
pub fn wrap_signature(sig: &[u8], timestamp: &[u8]) -> (r: Vec<u8>)
    ensures
        r@ == sidecar_bytes_of(sig@, timestamp@),
{
    proof {
        reveal_strlit("signature");
        reveal_strlit("timestamp");
    }
    let mut pairs: Vec<(Vec<u8>, Vec<u8>)> = Vec::new();
    pairs.push((str_bytes("signature"), hex_encode(sig)));
    pairs.push((str_bytes("timestamp"), vstd::slice::slice_to_vec(timestamp)));
    let out = emit_obj(&pairs);
    proof {
        assert(pairs_view(pairs@) =~= seq![
            (sidecar_keys().0, hex_of(sig@)),
            (sidecar_keys().1, timestamp@),
        ]);
    }
    out
}

/// The payload mirrored, best effort, to a remote ledger collector.
pub open spec fn upload_payload_of(name: Seq<u8>, hash: Seq<u8>, ts: Seq<u8>) -> Seq<u8> {
    obj_bytes(
        seq![
            (ascii_bytes("file_name"@), name),
            (ascii_bytes("signature_hash"@), hash),
            (ascii_bytes("timestamp"@), ts),
        ],
    )
}

/// Renders the mirror payload for one signing event.
pub fn upload_payload(file_name: &[u8], signature_hash: &[u8], timestamp: &[u8]) -> (r: Vec<u8>)
    ensures
        r@ == upload_payload_of(file_name@, signature_hash@, timestamp@),
{
    proof {
        reveal_strlit("file_name");
        reveal_strlit("signature_hash");
        reveal_strlit("timestamp");
    }
    let mut pairs: Vec<(Vec<u8>, Vec<u8>)> = Vec::new();
    pairs.push((str_bytes("file_name"), vstd::slice::slice_to_vec(file_name)));
    pairs.push((str_bytes("signature_hash"), vstd::slice::slice_to_vec(signature_hash)));
    pairs.push((str_bytes("timestamp"), vstd::slice::slice_to_vec(timestamp)));
    let out = emit_obj(&pairs);
    proof {
        assert(pairs_view(pairs@) =~= seq![
            (ascii_bytes("file_name"@), file_name@),
            (ascii_bytes("signature_hash"@), signature_hash@),
            (ascii_bytes("timestamp"@), timestamp@),
        ]);
    }
    out
}

/// What one run of the signing pipeline produces: the sidecar to write
/// beside the artifact, the line to append to the ledger, the payload
/// for the mirror, and the hex signature used as the event's reference.
pub struct SignOutcome {
    pub sidecar: Vec<u8>,
    pub ledger_line: Vec<u8>,
    pub upload_payload: Vec<u8>,
    pub signature_hash: Vec<u8>,
}

/// A signing failure: the artifact is no bill of materials, or the key
/// material is unusable.
#[derive(Clone, Copy, Debug, PartialEq, Eq, Structural)]
pub enum SignError {
    Sbom(FormatError),
    Key(KeyError),
}

/// All outputs of a signing of `artifact` under `sk` at `ts`.
pub open spec fn sign_outcome_ok(
    o: SignOutcome,
    artifact: Seq<u8>,
    name: Seq<u8>,
    ts: Seq<u8>,
    sk: Seq<u8>,
) -> bool {
    let sig = dilithium_sig_of(sha3_256_of(artifact), sk);
    &&& o.sidecar@ == sidecar_bytes_of(sig, ts)
    &&& o.signature_hash@ == hex_of(sig)
    &&& o.ledger_line@ == ledger_line_of(ts, name, hex_of(sig))
    &&& o.upload_payload@ == upload_payload_of(name, hex_of(sig), ts)
}

/// Runs the signing pipeline on one artifact already in memory:
/// validate the bill of materials, digest, sign, wrap, and render the
/// ledger line. Succeeds exactly on a valid bill of materials and a
/// usable key.
pub fn run<P: KeyProvider>(
    artifact: &[u8],
    file_name: &[u8],
    timestamp: &[u8],
    provider: &P,
) -> (r: Result<SignOutcome, SignError>)
    ensures
        r matches Ok(o) ==> sbom_valid(artifact@) && provider.secret_key().len()
            == SECRET_KEY_LEN && sign_outcome_ok(
            o,
            artifact@,
            file_name@,
            timestamp@,
            provider.secret_key(),
        ),
        r matches Err(SignError::Sbom(_)) ==> !sbom_valid(artifact@),
        r matches Err(SignError::Key(_)) ==> sbom_valid(artifact@) && provider.secret_key().len()
            != SECRET_KEY_LEN,
        sbom_valid(artifact@) && provider.secret_key().len() == SECRET_KEY_LEN ==> r is Ok,
{
    match validate_sbom_json(artifact) {
        Ok(()) => {},
        Err(e) => {
            return Err(SignError::Sbom(e));
        },
    }
    sign_prepared(artifact, file_name, timestamp, provider)
}

/// The pipeline after validation, shared with the batch signer, which
/// skips the bill-of-materials check for the files inside a batch.
pub fn sign_prepared<P: KeyProvider>(
    artifact: &[u8],
    file_name: &[u8],
    timestamp: &[u8],
    provider: &P,
) -> (r: Result<SignOutcome, SignError>)
    ensures
        r matches Ok(o) ==> provider.secret_key().len() == SECRET_KEY_LEN && sign_outcome_ok(
            o,
            artifact@,
            file_name@,
            timestamp@,
            provider.secret_key(),
        ),
        r matches Err(e) ==> e matches SignError::Key(_) && provider.secret_key().len()
            != SECRET_KEY_LEN,
        provider.secret_key().len() == SECRET_KEY_LEN ==> r is Ok,
{
    let digest = sha3_256(artifact);
    let sig = match provider.sign(digest.as_slice()) {
        Ok(s) => s,
        Err(e) => {
            return Err(SignError::Key(e));
        },
    };
    let hash_hex = hex_encode(sig.as_slice());
    let sidecar = wrap_signature(sig.as_slice(), timestamp);
    let line = crate::ledger::ledger_line(timestamp, file_name, hash_hex.as_slice());
    let payload = upload_payload(file_name, hash_hex.as_slice(), timestamp);
    Ok(
        SignOutcome {
            sidecar,
            ledger_line: line,
            upload_payload: payload,
            signature_hash: hash_hex,
        },
    )
}

} // verus!
