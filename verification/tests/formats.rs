//! Byte-level checks of the codecs: hex, sidecar, ledger lines, the
//! bill-of-materials validation and the policy reader.
use qs_notary::hexcode::{hex_decode, hex_encode};
use qs_notary::ledger::{append_entry, ledger_line, parse_ledger_line};
use qs_notary::policy::Policy;
use qs_notary::sign::{validate_sbom_json, wrap_signature};
use qs_notary::sign_all::{is_eligible, sig_path_for_file};
use qs_notary::verify::load_signature_file;
use qs_notary::FormatError;

#[test]
fn hex_encodes_lower_case() {
    assert_eq!(hex_encode(&[0x00, 0x1f, 0xab]), b"001fab".to_vec());
    assert_eq!(hex_encode(&[]), Vec::<u8>::new());
}

#[test]
fn hex_matches_reference_encoder() {
    let data: Vec<u8> = (0u16..=255).map(|b| b as u8).collect();
    assert_eq!(hex_encode(&data), hex::encode(&data).into_bytes());
}

#[test]
fn hex_round_trips_and_accepts_upper_case() {
    let data = vec![0u8, 255, 16, 1, 128];
    assert_eq!(hex_decode(&hex_encode(&data)), Some(data.clone()));
    assert_eq!(hex_decode(b"01FF"), Some(vec![1u8, 255]));
    assert_eq!(hex_decode(b"abc"), None);
    assert_eq!(hex_decode(b"zz"), None);
}

#[test]
fn sidecar_has_exact_canonical_bytes() {
    let sidecar = wrap_signature(&[0x01, 0xff], b"2024-01-01T00:00:00+00:00");
    assert_eq!(
        sidecar,
        b"{\"signature\":\"01ff\",\"timestamp\":\"2024-01-01T00:00:00+00:00\"}".to_vec()
    );
}

#[test]
fn sidecar_round_trips_with_awkward_timestamp_bytes() {
    let sig = vec![7u8, 0, 255, 64];
    let ts = b"line\nbreak \"quote\" back\\slash \x01ctl".to_vec();
    let sidecar = wrap_signature(&sig, &ts);
    let (got_sig, got_ts) = load_signature_file(&sidecar).unwrap();
    assert_eq!(got_sig, sig);
    assert_eq!(got_ts, Some(ts));
}

#[test]
fn sidecar_wrapped_form_parses_with_serde_too() {
    let sidecar = wrap_signature(&[0xde, 0xad], b"2024-06-01T10:00:00+00:00");
    let v: serde_json::Value = serde_json::from_slice(&sidecar).unwrap();
    assert_eq!(v["signature"].as_str(), Some("dead"));
    assert_eq!(v["timestamp"].as_str(), Some("2024-06-01T10:00:00+00:00"));
}

#[test]
fn sidecar_legacy_raw_form_is_passed_through() {
    let raw = vec![9u8, 8, 7, 6];
    let (sig, ts) = load_signature_file(&raw).unwrap();
    assert_eq!(sig, raw);
    assert_eq!(ts, None);
    // only a leading brace marks the wrapped form, as the legacy
    // decoder did: anything else, even text, is raw signature bytes
    let spaced = b" {\"signature\":\"0a\"}".to_vec();
    let (sig2, ts2) = load_signature_file(&spaced).unwrap();
    assert_eq!(sig2, spaced);
    assert_eq!(ts2, None);
}

#[test]
fn sidecar_tolerates_whitespace_and_key_order() {
    let text = b"{ \"timestamp\" : \"2024-01-01T00:00:00Z\" , \"signature\" : \"0a0b\" } ";
    let (sig, ts) = load_signature_file(text).unwrap();
    assert_eq!(sig, vec![0x0a, 0x0b]);
    assert_eq!(ts, Some(b"2024-01-01T00:00:00Z".to_vec()));
}

#[test]
fn sidecar_accepts_any_json_object_around_the_fields() {
    let extra = b"{\"n\":1,\"signature\":\"0a\"}";
    assert_eq!(load_signature_file(extra), Ok((vec![0x0au8], None)));
    let nested =
        b"{\"meta\":{\"k\":[1,2.5,true]},\"timestamp\":\"2024-01-01T00:00:00Z\",\"signature\":\"0a0b\"}";
    assert_eq!(
        load_signature_file(nested),
        Ok((vec![0x0au8, 0x0b], Some(b"2024-01-01T00:00:00Z".to_vec())))
    );
    let escaped = b"{\"note\":\"caf\\u00e9\",\"signature\":\"ff\"}";
    assert_eq!(load_signature_file(escaped), Ok((vec![0xffu8], None)));
    let nonstring_sig = b"{\"signature\":1}";
    assert_eq!(load_signature_file(nonstring_sig), Err(FormatError::MissingSignatureField));
}

#[test]
fn sidecar_errors_are_distinct() {
    assert_eq!(load_signature_file(b"{not json"), Err(FormatError::InvalidJson));
    assert_eq!(
        load_signature_file(b"{\"timestamp\":\"2024\"}"),
        Err(FormatError::MissingSignatureField)
    );
    assert_eq!(
        load_signature_file(b"{\"signature\":\"xyz\"}"),
        Err(FormatError::InvalidHex)
    );
}

#[test]
fn ledger_line_has_exact_bytes_and_round_trips() {
    let line = ledger_line(b"2024-01-01T00:00:00+00:00", b"sbom.json", b"0aff");
    assert_eq!(
        line,
        b"{\"timestamp\":\"2024-01-01T00:00:00+00:00\",\"file_name\":\"sbom.json\",\"signature_hash\":\"0aff\"}\n".to_vec()
    );
    let entry = parse_ledger_line(&line[..line.len() - 1]).unwrap();
    assert_eq!(entry.timestamp, b"2024-01-01T00:00:00+00:00".to_vec());
    assert_eq!(entry.file_name, b"sbom.json".to_vec());
    assert_eq!(entry.signature_hash, b"0aff".to_vec());
}

#[test]
fn ledger_appends_never_change_earlier_bytes() {
    let mut ledger: Vec<u8> = Vec::new();
    let mut snapshots: Vec<Vec<u8>> = Vec::new();
    for i in 0..5u8 {
        let name = format!("file-{}.json", i).into_bytes();
        append_entry(&mut ledger, b"2024-01-01T00:00:00Z", &name, b"aa");
        snapshots.push(ledger.clone());
    }
    for (i, snap) in snapshots.iter().enumerate() {
        assert_eq!(&ledger[..snap.len()], snap.as_slice());
        assert_eq!(snap.iter().filter(|b| **b == b'\n').count(), i + 1);
    }
    let lines: Vec<&[u8]> = ledger.split(|b| *b == b'\n').filter(|l| !l.is_empty()).collect();
    assert_eq!(lines.len(), 5);
    for line in lines {
        assert!(parse_ledger_line(line).is_some());
        let v: serde_json::Value = serde_json::from_slice(line).unwrap();
        assert!(v["timestamp"].is_string());
        assert!(v["file_name"].is_string());
        assert!(v["signature_hash"].is_string());
    }
}

#[test]
fn sbom_validation_tells_failures_apart() {
    assert!(validate_sbom_json(b"{\"bomFormat\":\"CycloneDX\",\"version\":1}").is_ok());
    assert!(validate_sbom_json(b"{\"spdxVersion\":\"SPDX-2.3\"}").is_ok());
    assert_eq!(validate_sbom_json(b"not json"), Err(FormatError::InvalidJson));
    assert_eq!(validate_sbom_json(b"[1,2]"), Err(FormatError::RootNotObject));
    assert_eq!(validate_sbom_json(b"{\"name\":\"x\"}"), Err(FormatError::MissingMarker));
    assert_eq!(
        validate_sbom_json(b"{\"bomFormat\":\"SWID\"}"),
        Err(FormatError::MissingMarker)
    );
}

#[test]
fn policy_reads_all_fields() {
    let p = Policy::load(
        b"{\"allow_expired\": true, \"max_age_days\": 30, \"allowed_public_keys\": [\"AB\", \" cd \"]}",
    )
    .unwrap();
    assert!(p.allow_expired);
    assert_eq!(p.max_age_days, Some(30));
    assert_eq!(
        p.allowed_public_keys,
        Some(vec![b"AB".to_vec(), b" cd ".to_vec()])
    );
}

#[test]
fn policy_defaults_and_unknown_fields() {
    let p = Policy::load(b"{}").unwrap();
    assert!(!p.allow_expired);
    assert_eq!(p.max_age_days, None);
    assert!(p.allowed_public_keys.is_none());
    let p2 = Policy::load(b"{\"comment\": \"x\", \"max_age_days\": null}").unwrap();
    assert_eq!(p2.max_age_days, None);
}

#[test]
fn policy_ignores_unknown_fields_of_any_shape() {
    let p = Policy::load(b"{\"a\":{}}").unwrap();
    assert!(!p.allow_expired);
    assert_eq!(p.max_age_days, None);
    let p2 = Policy::load(b"{\"pi\":3.25,\"arr\":[{\"x\":1}],\"max_age_days\":5}").unwrap();
    assert_eq!(p2.max_age_days, Some(5));
    let p3 = Policy::load(b"{\"big\":18446744073709551616,\"neg\":-1}").unwrap();
    assert_eq!(p3.max_age_days, None);
    assert!(p3.allowed_public_keys.is_none());
}

#[test]
fn policy_rejects_bad_shapes() {
    assert!(Policy::load(b"[]").is_err());
    assert!(Policy::load(b"{\"allow_expired\": \"yes\"}").is_err());
    assert!(Policy::load(b"{\"max_age_days\": 4294967296}").is_err());
    assert!(Policy::load(b"{\"allowed_public_keys\": \"ab\"}").is_err());
    assert!(Policy::load(b"not json").is_err());
}

#[test]
fn sig_paths_append_the_suffix() {
    assert_eq!(sig_path_for_file(b"sbom.json"), b"sbom.json.sig".to_vec());
    assert_eq!(sig_path_for_file(b"README"), b"README.sig".to_vec());
    assert_eq!(sig_path_for_file(b"dir/archive.tar.gz"), b"dir/archive.tar.gz.sig".to_vec());
}

#[test]
fn eligibility_excludes_hidden_and_sidecars() {
    assert!(is_eligible(b"a/b/c.json"));
    assert!(is_eligible(b"top.txt"));
    assert!(!is_eligible(b".hidden"));
    assert!(!is_eligible(b".git/config"));
    assert!(!is_eligible(b"a/.cache/x"));
    assert!(!is_eligible(b"a/b.sig"));
    assert!(!is_eligible(b""));
}
