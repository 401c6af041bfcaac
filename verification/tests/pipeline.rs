//! End-to-end runs of the signing and verification pipelines with the
//! real digest and signature scheme, the policy gates, and the batch
//! signer.
use qs_notary::crypto::{generate_keypair, PUBLIC_KEY_LEN, SECRET_KEY_LEN, SIGNATURE_LEN};
use qs_notary::key_provider::{FileSystemProvider, KeyProvider, MockKmsProvider};
use qs_notary::policy::Policy;
use qs_notary::sign::SignError;
use qs_notary::verify::{RejectReason, VerifyDecision, VerifyError};

const SBOM: &[u8] = b"{\"bomFormat\":\"CycloneDX\",\"version\":1}";

fn now_rfc3339() -> Vec<u8> {
    chrono::Utc::now().to_rfc3339().into_bytes()
}

fn now_unix() -> i64 {
    chrono::Utc::now().timestamp()
}

#[test]
fn keypair_has_scheme_lengths() {
    let (pk, sk) = generate_keypair();
    assert_eq!(pk.len(), PUBLIC_KEY_LEN);
    assert_eq!(sk.len(), SECRET_KEY_LEN);
}

#[test]
fn sign_then_verify_accepts() {
    let (pk, sk) = generate_keypair();
    let provider = FileSystemProvider::new(sk);
    let o = qs_notary::sign::run(SBOM, b"sbom.json", &now_rfc3339(), &provider).unwrap();
    assert_eq!(o.signature_hash.len(), 2 * SIGNATURE_LEN);
    let r = qs_notary::verify::run(SBOM, &o.sidecar, &pk, None, now_unix());
    assert_eq!(r, Ok(VerifyDecision::Accepted));
}

#[test]
fn sidecar_carries_hex_signature_and_rfc3339_timestamp() {
    let (pk, sk) = generate_keypair();
    let provider = FileSystemProvider::new(sk);
    let o = qs_notary::sign::run(SBOM, b"sbom.json", &now_rfc3339(), &provider).unwrap();
    let v: serde_json::Value = serde_json::from_slice(&o.sidecar).unwrap();
    let sig_hex = v["signature"].as_str().unwrap();
    assert!(hex::decode(sig_hex).is_ok());
    let ts = v["timestamp"].as_str().unwrap();
    assert!(chrono::DateTime::parse_from_rfc3339(ts).is_ok());
    let (pk2, _) = generate_keypair();
    let r = qs_notary::verify::run(SBOM, &o.sidecar, &pk2, None, now_unix());
    assert_eq!(r, Ok(VerifyDecision::Rejected(RejectReason::Cryptographic)));
    let _ = pk;
}

#[test]
fn any_single_bit_flip_fails_cryptographically() {
    let (pk, sk) = generate_keypair();
    let provider = FileSystemProvider::new(sk);
    let o = qs_notary::sign::run(SBOM, b"sbom.json", &now_rfc3339(), &provider).unwrap();
    for pos in [0usize, 7, SBOM.len() / 2, SBOM.len() - 1] {
        for bit in 0..8 {
            let mut tampered = SBOM.to_vec();
            tampered[pos] ^= 1 << bit;
            let r = qs_notary::verify::run(&tampered, &o.sidecar, &pk, None, now_unix());
            assert_eq!(r, Ok(VerifyDecision::Rejected(RejectReason::Cryptographic)));
        }
    }
}

#[test]
fn verifying_with_another_key_pair_fails_cryptographically() {
    let (_pk_a, sk_a) = generate_keypair();
    let (pk_b, _sk_b) = generate_keypair();
    let provider = FileSystemProvider::new(sk_a);
    let o = qs_notary::sign::run(SBOM, b"sbom.json", &now_rfc3339(), &provider).unwrap();
    let r = qs_notary::verify::run(SBOM, &o.sidecar, &pk_b, None, now_unix());
    assert_eq!(r, Ok(VerifyDecision::Rejected(RejectReason::Cryptographic)));
}

#[test]
fn bad_public_key_length_is_an_error_not_a_rejection() {
    let (_, sk) = generate_keypair();
    let provider = FileSystemProvider::new(sk);
    let o = qs_notary::sign::run(SBOM, b"sbom.json", &now_rfc3339(), &provider).unwrap();
    let r = qs_notary::verify::run(SBOM, &o.sidecar, b"short", None, now_unix());
    assert_eq!(r, Err(VerifyError::BadPublicKey));
}

#[test]
fn unusable_key_material_fails_signing() {
    let provider = FileSystemProvider::new(b"not a key".to_vec());
    let r = qs_notary::sign::run(SBOM, b"sbom.json", &now_rfc3339(), &provider);
    assert!(matches!(r, Err(SignError::Key(_))));
}

#[test]
fn invalid_sbom_fails_before_signing() {
    let (_, sk) = generate_keypair();
    let provider = FileSystemProvider::new(sk);
    let r = qs_notary::sign::run(b"{\"name\":\"x\"}", b"x.json", &now_rfc3339(), &provider);
    assert!(matches!(r, Err(SignError::Sbom(_))));
}

#[test]
fn mock_kms_signs_consistently_under_one_identity() {
    let provider = MockKmsProvider::new();
    let pk = provider.export_public_key();
    let o1 = qs_notary::sign::run(SBOM, b"sbom.json", &now_rfc3339(), &provider).unwrap();
    let o2 = qs_notary::sign::run(SBOM, b"sbom.json", &now_rfc3339(), &provider).unwrap();
    assert_eq!(o1.signature_hash, o2.signature_hash);
    let r = qs_notary::verify::run(SBOM, &o1.sidecar, &pk, None, now_unix());
    assert_eq!(r, Ok(VerifyDecision::Accepted));
}

fn days_ago_rfc3339(days: i64) -> Vec<u8> {
    (chrono::Utc::now() - chrono::Duration::days(days)).to_rfc3339().into_bytes()
}

#[test]
fn age_policy_rejects_an_eight_day_old_signature() {
    let (pk, sk) = generate_keypair();
    let provider = FileSystemProvider::new(sk);
    let o = qs_notary::sign::run(SBOM, b"sbom.json", &days_ago_rfc3339(8), &provider).unwrap();
    let policy = Policy::load(b"{\"max_age_days\": 7, \"allow_expired\": false}").unwrap();
    let r = qs_notary::verify::run(SBOM, &o.sidecar, &pk, Some(&policy), now_unix());
    assert_eq!(r, Ok(VerifyDecision::Rejected(RejectReason::Expired)));
    let r2 = qs_notary::verify::run(
        SBOM,
        &qs_notary::sign::run(SBOM, b"sbom.json", &days_ago_rfc3339(7), &provider)
            .unwrap()
            .sidecar,
        &pk,
        Some(&policy),
        now_unix(),
    );
    assert_eq!(r2, Ok(VerifyDecision::Accepted));
}

#[test]
fn allow_expired_accepts_whatever_the_age() {
    let (pk, sk) = generate_keypair();
    let provider = FileSystemProvider::new(sk);
    let o = qs_notary::sign::run(SBOM, b"sbom.json", &days_ago_rfc3339(8), &provider).unwrap();
    let policy = Policy::load(b"{\"max_age_days\": 7, \"allow_expired\": true}").unwrap();
    let r = qs_notary::verify::run(SBOM, &o.sidecar, &pk, Some(&policy), now_unix());
    assert_eq!(r, Ok(VerifyDecision::Accepted));
}

#[test]
fn age_policy_needs_a_timestamp() {
    let (pk, sk) = generate_keypair();
    let provider = FileSystemProvider::new(sk.clone());
    let o = qs_notary::sign::run(SBOM, b"sbom.json", &now_rfc3339(), &provider).unwrap();
    let (raw_sig, _) = qs_notary::verify::load_signature_file(&o.sidecar).unwrap();
    let policy = Policy::load(b"{\"max_age_days\": 7}").unwrap();
    let r = qs_notary::verify::run(SBOM, &raw_sig, &pk, Some(&policy), now_unix());
    assert_eq!(r, Ok(VerifyDecision::Rejected(RejectReason::MissingTimestamp)));
}

#[test]
fn allowlist_miss_is_distinct_from_cryptographic_failure() {
    let (pk_a, _sk_a) = generate_keypair();
    let (pk_b, sk_b) = generate_keypair();
    let provider = FileSystemProvider::new(sk_b);
    let o = qs_notary::sign::run(SBOM, b"sbom.json", &now_rfc3339(), &provider).unwrap();
    let policy_text = format!(
        "{{\"allowed_public_keys\": [\"{}\"]}}",
        hex::encode(&pk_a)
    );
    let policy = Policy::load(policy_text.as_bytes()).unwrap();
    let r = qs_notary::verify::run(SBOM, &o.sidecar, &pk_b, Some(&policy), now_unix());
    assert_eq!(r, Ok(VerifyDecision::Rejected(RejectReason::NotInAllowlist)));
}

#[test]
fn allowlist_matches_case_insensitively_and_trimmed() {
    let (pk, sk) = generate_keypair();
    let provider = FileSystemProvider::new(sk);
    let o = qs_notary::sign::run(SBOM, b"sbom.json", &now_rfc3339(), &provider).unwrap();
    let policy_text = format!(
        "{{\"allowed_public_keys\": [\"  {}  \"]}}",
        hex::encode(&pk).to_uppercase()
    );
    let policy = Policy::load(policy_text.as_bytes()).unwrap();
    let r = qs_notary::verify::run(SBOM, &o.sidecar, &pk, Some(&policy), now_unix());
    assert_eq!(r, Ok(VerifyDecision::Accepted));
}

#[test]
fn batch_signs_eligible_files_in_path_order() {
    let (pk, sk) = generate_keypair();
    let provider = FileSystemProvider::new(sk);
    let files: Vec<(Vec<u8>, Vec<u8>)> = vec![
        (b"b/two.json".to_vec(), b"two".to_vec()),
        (b"a-one.txt".to_vec(), b"one".to_vec()),
        (b".hidden/skip".to_vec(), b"no".to_vec()),
        (b"b/skip.sig".to_vec(), b"no".to_vec()),
    ];
    let batch = qs_notary::sign_all::run(&files, &now_rfc3339(), &provider).unwrap();
    assert_eq!(batch.files.len(), 2);
    assert_eq!(batch.files[0].rel_path, b"a-one.txt".to_vec());
    assert_eq!(batch.files[1].rel_path, b"b/two.json".to_vec());
    assert_eq!(batch.files[0].sig_path, b"a-one.txt.sig".to_vec());

    // one ledger line per file plus one for the manifest
    let mut ledger: Vec<u8> = Vec::new();
    for f in &batch.files {
        ledger.extend_from_slice(&f.outcome.ledger_line);
    }
    ledger.extend_from_slice(&batch.manifest_file.outcome.ledger_line);
    let lines: Vec<&[u8]> = ledger.split(|b| *b == b'\n').filter(|l| !l.is_empty()).collect();
    assert_eq!(lines.len(), 3);

    // the manifest lists exactly the signed files, and is itself signed
    let v: serde_json::Value = serde_json::from_slice(&batch.manifest).unwrap();
    let entries = v["entries"].as_array().unwrap();
    assert_eq!(entries.len(), 2);
    assert_eq!(entries[0]["path"].as_str(), Some("a-one.txt"));
    assert_eq!(entries[1]["path"].as_str(), Some("b/two.json"));
    let r = qs_notary::verify::run(
        &batch.manifest,
        &batch.manifest_file.outcome.sidecar,
        &pk,
        None,
        now_unix(),
    );
    assert_eq!(r, Ok(VerifyDecision::Accepted));

    // a batch-signed file verifies from its sidecar too
    let r2 = qs_notary::verify::run(b"one", &batch.files[0].outcome.sidecar, &pk, None, now_unix());
    assert_eq!(r2, Ok(VerifyDecision::Accepted));
    // ledger entries carry the file's base name
    let entry = qs_notary::ledger::parse_ledger_line(lines[1]).unwrap();
    assert_eq!(entry.file_name, b"two.json".to_vec());
}

#[test]
fn batch_fails_whole_with_unusable_key() {
    let provider = FileSystemProvider::new(b"bad".to_vec());
    let files: Vec<(Vec<u8>, Vec<u8>)> = vec![(b"a.txt".to_vec(), b"x".to_vec())];
    let r = qs_notary::sign_all::run(&files, &now_rfc3339(), &provider);
    assert!(r.is_err());
}

#[test]
fn raw_signature_helpers_work_together() {
    let (pk, sk) = generate_keypair();
    let digest = b"thirty-two pretend digest bytes!";
    let sig = qs_notary::crypto::sign_hash(digest, &sk);
    assert_eq!(sig.len(), SIGNATURE_LEN);
    assert!(qs_notary::crypto::verify_signature(&sig, digest, &pk));
    assert!(!qs_notary::crypto::verify_signature(&sig, b"another message", &pk));
    assert_eq!(qs_notary::crypto::load_signature(&sig), Some(sig.clone()));
    assert_eq!(qs_notary::crypto::load_signature(&vec![0u8; SIGNATURE_LEN + 1]), None);
}

#[test]
fn mirror_payload_carries_the_event_fields() {
    let payload = qs_notary::sign::upload_payload(b"sbom.json", b"0aff", b"2024-01-01T00:00:00Z");
    let v: serde_json::Value = serde_json::from_slice(&payload).unwrap();
    assert_eq!(v["file_name"].as_str(), Some("sbom.json"));
    assert_eq!(v["signature_hash"].as_str(), Some("0aff"));
    assert_eq!(v["timestamp"].as_str(), Some("2024-01-01T00:00:00Z"));
}
