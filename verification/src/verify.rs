//! The verification pipeline, a strict sequence of states: load the
//! public key, decode the sidecar, recompute the digest, verify
//! cryptographically, then pass the policy's allowlist and age gates.
//! The first failure is terminal, and every rejection carries a reason
//! that tells cryptographic failure and each policy failure apart.
use vstd::prelude::*;
use crate::crypto::{
    dilithium_sig_of, dilithium_verify_ok, sha3_256, sha3_256_of, verify_signature,
    PUBLIC_KEY_LEN, SIGNATURE_LEN,
};
use crate::hexcode::{hex_decode, hex_encode, hex_of, hex_parse, lemma_hex_round_trip};
use crate::jsontext::{lemma_obj_round_trip, pairs_view, parse_obj};
use crate::policy::{
    age_days, age_days_x, allowlist_contains, allowlist_ok, parse_rfc3339_unix, rfc3339_unix_of,
    Policy, PolicyV,
};
use crate::sign::{json_root_object, json_str_field, sidecar_bytes_of, sidecar_keys};
use crate::text::{ascii_bytes, bytes_eq, str_bytes};
use crate::FormatError;

verus! {

/// Why a verification was rejected; reasons are user-visible and keep
/// cryptographic failure distinct from each policy failure.
#[derive(Clone, Copy, Debug, PartialEq, Eq, Structural)]
pub enum RejectReason {
    /// The signature does not verify over the artifact under the key.
    Cryptographic,
    /// The verifying public key is not in the policy's allowlist.
    NotInAllowlist,
    /// The policy bounds the age but the sidecar has no timestamp.
    MissingTimestamp,
    /// The signature is older, in whole days, than the policy allows.
    Expired,
}

/// The terminal state of a verification.
#[derive(Clone, Copy, Debug, PartialEq, Eq, Structural)]
pub enum VerifyDecision {
    Accepted,
    Rejected(RejectReason),
}

/// A failure before any decision could be made.
#[derive(Clone, Copy, Debug, PartialEq, Eq, Structural)]
pub enum VerifyError {
    /// The public key bytes do not have the scheme's key length.
    BadPublicKey,
    /// The sidecar, or its timestamp when the policy needs it, is
    /// malformed.
    Sidecar(FormatError),
}

/// The value of the last field named `k`; JSON objects take the last
/// duplicate.
pub open spec fn lookup(pairs: Seq<(Seq<u8>, Seq<u8>)>, k: Seq<u8>) -> Option<Seq<u8>>
    decreases pairs.len(),
{
    if pairs.len() == 0 {
        None
    } else if pairs.last().0 == k {
        Some(pairs.last().1)
    } else {
        lookup(pairs.drop_last(), k)
    }
}

/// What sidecar bytes decode to. Bytes that do not open a JSON object
/// are the legacy form: raw signature bytes without a timestamp. The
/// wrapped form is any JSON object whose `signature` member is a
/// valid-hex string, with an optional `timestamp` string. The flat
/// form this library writes is decoded by the verified object reader,
/// which makes the wrap-then-decode round trip a proved fact; every
/// other object shape is read through the serde-backed names.
pub open spec fn sidecar_parse(b: Seq<u8>) -> Result<(Seq<u8>, Option<Seq<u8>>), FormatError> {
    if b.len() == 0 || b[0] != 123 {
        Ok((b, None))
    } else {
        match parse_obj(b) {
            None => sidecar_parse_general(b),
            Some(pairs) => match lookup(pairs, sidecar_keys().0) {
                None => Err(FormatError::MissingSignatureField),
                Some(hexs) => match hex_parse(hexs) {
                    None => Err(FormatError::InvalidHex),
                    Some(sig) => Ok((sig, lookup(pairs, sidecar_keys().1))),
                },
            },
        }
    }
}

/// The wrapped form read as the original tools read it: one JSON
/// object of any shape, its `signature` member a hex string.
pub open spec fn sidecar_parse_general(b: Seq<u8>) -> Result<
    (Seq<u8>, Option<Seq<u8>>),
    FormatError,
> {
    match json_root_object(b) {
        None => Err(FormatError::InvalidJson),
        Some(false) => Err(FormatError::RootNotObject),
        Some(true) => match json_str_field(b, "signature"@) {
            None => Err(FormatError::MissingSignatureField),
            Some(hexs) => match hex_parse(hexs) {
                None => Err(FormatError::InvalidHex),
                Some(sig) => Ok((sig, json_str_field(b, "timestamp"@))),
            },
        },
    }
}

/// The parse result named by an executable decode.
pub open spec fn sidecar_result_view(r: Result<(Vec<u8>, Option<Vec<u8>>), FormatError>) -> Result<
    (Seq<u8>, Option<Seq<u8>>),
    FormatError,
> {
    match r {
        Ok((sig, Some(ts))) => Ok((sig@, Some(ts@))),
        Ok((sig, None)) => Ok((sig@, None)),
        Err(e) => Err(e),
    }
}

fn lookup_x(pairs: &Vec<(Vec<u8>, Vec<u8>)>, k: &[u8]) -> (r: Option<Vec<u8>>)
    ensures
        r matches Some(v) ==> lookup(pairs_view(pairs@), k@) == Some(v@),
        r is None ==> lookup(pairs_view(pairs@), k@) is None,
{
    let mut i = pairs.len();
    proof {
        assert(pairs_view(pairs@).subrange(0, i as int) =~= pairs_view(pairs@));
    }
    while i > 0
        invariant
            i <= pairs@.len(),
            lookup(pairs_view(pairs@), k@) == lookup(
                pairs_view(pairs@).subrange(0, i as int),
                k@,
            ),
        decreases i,
    {
        i = i - 1;
        proof {
            assert(pairs_view(pairs@).subrange(0, i + 1 as int).drop_last() =~= pairs_view(
                pairs@,
            ).subrange(0, i as int));
            assert(pairs_view(pairs@).subrange(0, i + 1 as int).last() == pairs_view(pairs@)[
                i as int
            ]);
            assert(pairs_view(pairs@)[i as int] == (pairs@[i as int].0@, pairs@[i as int].1@));
        }
        if bytes_eq(pairs[i].0.as_slice(), k) {
            return Some(vstd::slice::slice_to_vec(pairs[i].1.as_slice()));
        }
    }
    proof {
        assert(pairs_view(pairs@).subrange(0, 0) =~= Seq::<(Seq<u8>, Seq<u8>)>::empty());
    }
    None
}

/// Decodes a sidecar file's bytes into signature bytes and an optional
/// timestamp, accepting the wrapped and the legacy raw form. Wrapped
/// objects beyond the flat form this library writes are read through
/// serde_json, so any JSON object carrying the fields is accepted.
pub fn load_signature_file(bytes: &[u8]) -> (r: Result<(Vec<u8>, Option<Vec<u8>>), FormatError>)
    ensures
        sidecar_result_view(r) == sidecar_parse(bytes@),
{
    if bytes.len() == 0 || bytes[0] != 123 {
        return Ok((vstd::slice::slice_to_vec(bytes), None));
    }
    proof {
        reveal_strlit("signature");
        reveal_strlit("timestamp");
    }
    let pairs = match crate::jsontext::parse_obj_x(bytes) {
        Some(p) => p,
        None => {
            return load_signature_file_general(bytes);
        },
    };
    let hexs = match lookup_x(&pairs, str_bytes("signature").as_slice()) {
        Some(h) => h,
        None => {
            return Err(FormatError::MissingSignatureField);
        },
    };
    let sig = match hex_decode(hexs.as_slice()) {
        Some(s) => s,
        None => {
            return Err(FormatError::InvalidHex);
        },
    };
    let ts = lookup_x(&pairs, str_bytes("timestamp").as_slice());
    Ok((sig, ts))
}

fn load_signature_file_general(bytes: &[u8]) -> (r: Result<
    (Vec<u8>, Option<Vec<u8>>),
    FormatError,
>)
    ensures
        sidecar_result_view(r) == sidecar_parse_general(bytes@),
{
    match crate::sign::json_root_object_x(bytes) {
        None => {
            return Err(FormatError::InvalidJson);
        },
        Some(false) => {
            return Err(FormatError::RootNotObject);
        },
        Some(true) => {},
    }
    let hexs = match crate::sign::json_str_field_x(bytes, "signature") {
        Some(h) => h,
        None => {
            return Err(FormatError::MissingSignatureField);
        },
    };
    let sig = match hex_decode(hexs.as_slice()) {
        Some(s) => s,
        None => {
            return Err(FormatError::InvalidHex);
        },
    };
    let ts = crate::sign::json_str_field_x(bytes, "timestamp");
    Ok((sig, ts))
}

/// The policy gates, entered only after cryptographic verification:
/// the allowlist, then the age bound, each with its own reason.
pub open spec fn policy_outcome(
    policy: Option<PolicyV>,
    pk_hex: Seq<u8>,
    ts: Option<Seq<u8>>,
    now: i64,
) -> Result<VerifyDecision, VerifyError> {
    match policy {
        None => Ok(VerifyDecision::Accepted),
        Some(p) => {
            let allowed = match p.allowed_public_keys {
                Some(list) => allowlist_ok(list, pk_hex),
                None => true,
            };
            if !allowed {
                Ok(VerifyDecision::Rejected(RejectReason::NotInAllowlist))
            } else {
                match p.max_age_days {
                    None => Ok(VerifyDecision::Accepted),
                    Some(max) => if p.allow_expired {
                        Ok(VerifyDecision::Accepted)
                    } else {
                        match ts {
                            None => Ok(VerifyDecision::Rejected(RejectReason::MissingTimestamp)),
                            Some(t) => match rfc3339_unix_of(t) {
                                None => Err(VerifyError::Sidecar(FormatError::InvalidTimestamp)),
                                Some(tu) => if age_days(now, tu) > max {
                                    Ok(VerifyDecision::Rejected(RejectReason::Expired))
                                } else {
                                    Ok(VerifyDecision::Accepted)
                                },
                            },
                        }
                    },
                }
            }
        },
    }
}

/// The whole pipeline's outcome on given bytes at a given moment.
pub open spec fn verify_outcome(
    artifact: Seq<u8>,
    sidecar: Seq<u8>,
    pk: Seq<u8>,
    policy: Option<PolicyV>,
    now: i64,
) -> Result<VerifyDecision, VerifyError> {
    if pk.len() != PUBLIC_KEY_LEN {
        Err(VerifyError::BadPublicKey)
    } else {
        match sidecar_parse(sidecar) {
            Err(e) => Err(VerifyError::Sidecar(e)),
            Ok((sig, ts)) => {
                if sig.len() <= SIGNATURE_LEN && dilithium_verify_ok(
                    pk,
                    sha3_256_of(artifact),
                    sig,
                ) {
                    policy_outcome(policy, hex_of(pk), ts, now)
                } else {
                    Ok(VerifyDecision::Rejected(RejectReason::Cryptographic))
                }
            },
        }
    }
}

/// The policy a caller may or may not have supplied.
pub open spec fn policy_view_opt(policy: Option<&Policy>) -> Option<PolicyV> {
    match policy {
        Some(p) => Some(p@),
        None => None,
    }
}

/// Runs the verification pipeline: `now` is the moment, in Unix
/// seconds, at which ages are measured.
pub fn run(
    artifact: &[u8],
    sidecar: &[u8],
    public_key: &[u8],
    policy: Option<&Policy>,
    now: i64,
) -> (r: Result<VerifyDecision, VerifyError>)
    ensures
        r == verify_outcome(artifact@, sidecar@, public_key@, policy_view_opt(policy), now),
{
    if public_key.len() != PUBLIC_KEY_LEN {
        return Err(VerifyError::BadPublicKey);
    }
    let (sig, ts) = match load_signature_file(sidecar) {
        Ok(st) => st,
        Err(e) => {
            return Err(VerifyError::Sidecar(e));
        },
    };
    let digest = sha3_256(artifact);
    if !verify_signature(sig.as_slice(), digest.as_slice(), public_key) {
        return Ok(VerifyDecision::Rejected(RejectReason::Cryptographic));
    }
    let p = match policy {
        None => {
            return Ok(VerifyDecision::Accepted);
        },
        Some(p) => p,
    };
    let pk_hex = hex_encode(public_key);
    let allowed = match p.allowed_public_keys {
        Some(ref list) => allowlist_contains(list, pk_hex.as_slice()),
        None => true,
    };
    if !allowed {
        return Ok(VerifyDecision::Rejected(RejectReason::NotInAllowlist));
    }
    let max = match p.max_age_days {
        None => {
            return Ok(VerifyDecision::Accepted);
        },
        Some(m) => m,
    };
    if p.allow_expired {
        return Ok(VerifyDecision::Accepted);
    }
    let t = match ts {
        None => {
            return Ok(VerifyDecision::Rejected(RejectReason::MissingTimestamp));
        },
        Some(t) => t,
    };
    let tu = match parse_rfc3339_unix(t.as_slice()) {
        None => {
            return Err(VerifyError::Sidecar(FormatError::InvalidTimestamp));
        },
        Some(tu) => tu,
    };
    if age_days_x(now, tu) > max as i128 {
        Ok(VerifyDecision::Rejected(RejectReason::Expired))
    } else {
        Ok(VerifyDecision::Accepted)
    }
}

/// Wrapping then decoding gives the signature and timestamp back.
pub proof fn lemma_sidecar_round_trip(sig: Seq<u8>, ts: Seq<u8>)
    ensures
        sidecar_parse(sidecar_bytes_of(sig, ts)) == Ok::<_, FormatError>((sig, Some(ts))),
{
    let pairs = seq![(sidecar_keys().0, hex_of(sig)), (sidecar_keys().1, ts)];
    let b = sidecar_bytes_of(sig, ts);
    assert(b[0] == 123);
    lemma_obj_round_trip(pairs);
    reveal_strlit("signature");
    reveal_strlit("timestamp");
    assert(sidecar_keys().0 != sidecar_keys().1) by {
        assert(ascii_bytes("signature"@)[0] == 115);
        assert(ascii_bytes("timestamp"@)[0] == 116);
    }
    assert(pairs.last() == (sidecar_keys().1, ts));
    assert(lookup(pairs, sidecar_keys().1) == Some(ts));
    let single = seq![(sidecar_keys().0, hex_of(sig))];
    assert(pairs.drop_last() =~= single);
    assert(single.last() == (sidecar_keys().0, hex_of(sig)));
    assert(lookup(single, sidecar_keys().0) == Some(hex_of(sig)));
    assert(lookup(pairs, sidecar_keys().0) == lookup(single, sidecar_keys().0));
    lemma_hex_round_trip(sig);
}

/// Signing an artifact and verifying it with the pair's public key and
/// no policy is accepted, for every artifact and every key pair the
/// scheme generates.
pub proof fn lemma_sign_then_verify_accepts(
    artifact: Seq<u8>,
    pk: Seq<u8>,
    sk: Seq<u8>,
    ts: Seq<u8>,
    now: i64,
)
    requires
        pk.len() == PUBLIC_KEY_LEN,
        dilithium_sig_of(sha3_256_of(artifact), sk).len() <= SIGNATURE_LEN,
        dilithium_verify_ok(pk, sha3_256_of(artifact), dilithium_sig_of(sha3_256_of(artifact), sk)),
    ensures
        verify_outcome(
            artifact,
            sidecar_bytes_of(dilithium_sig_of(sha3_256_of(artifact), sk), ts),
            pk,
            None,
            now,
        ) == Ok::<_, VerifyError>(VerifyDecision::Accepted),
{
    let sig = dilithium_sig_of(sha3_256_of(artifact), sk);
    lemma_sidecar_round_trip(sig, ts);
}

/// A policy whose allowlist does not admit the verifying key rejects
/// for that reason alone, distinct from cryptographic failure, whatever
/// the timestamp and the moment.
pub proof fn lemma_allowlist_miss_rejects(p: PolicyV, pk_hex: Seq<u8>, ts: Option<Seq<u8>>, now: i64)
    requires
        p.allowed_public_keys matches Some(list) && !allowlist_ok(list, pk_hex),
    ensures
        policy_outcome(Some(p), pk_hex, ts, now) == Ok::<_, VerifyError>(
            VerifyDecision::Rejected(RejectReason::NotInAllowlist),
        ),
{
}

/// With `allow_expired`, the age gate never rejects: a policy that
/// admits the key accepts, whatever the timestamp and the moment.
pub proof fn lemma_allow_expired_ignores_age(
    p: PolicyV,
    pk_hex: Seq<u8>,
    ts: Option<Seq<u8>>,
    now: i64,
)
    requires
        p.allow_expired,
        match p.allowed_public_keys {
            Some(list) => allowlist_ok(list, pk_hex),
            None => true,
        },
    ensures
        policy_outcome(Some(p), pk_hex, ts, now) == Ok::<_, VerifyError>(VerifyDecision::Accepted),
{
}

/// An age strictly over the bound rejects as expired; an age equal to
/// the bound is accepted.
pub proof fn lemma_age_gate(p: PolicyV, pk_hex: Seq<u8>, t: Seq<u8>, tu: i64, now: i64, max: u32)
    requires
        !p.allow_expired,
        p.max_age_days == Some(max),
        match p.allowed_public_keys {
            Some(list) => allowlist_ok(list, pk_hex),
            None => true,
        },
        rfc3339_unix_of(t) == Some(tu),
    ensures
        age_days(now, tu) > max ==> policy_outcome(Some(p), pk_hex, Some(t), now) == Ok::<
            _,
            VerifyError,
        >(VerifyDecision::Rejected(RejectReason::Expired)),
        age_days(now, tu) <= max ==> policy_outcome(Some(p), pk_hex, Some(t), now) == Ok::<
            _,
            VerifyError,
        >(VerifyDecision::Accepted),
{
}

} // verus!
