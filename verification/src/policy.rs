//! The policy engine: trust rules evaluated after cryptographic
//! verification. A policy arrives as a JSON object with an
//! `allow_expired` flag, an optional `max_age_days` bound and an
//! optional `allowed_public_keys` list of hex strings. The file is
//! read through serde_json, so unknown members are ignored whatever
//! value they hold; only the three known members constrain acceptance.
use vstd::prelude::*;
use crate::text::{ascii_lower, ascii_trim, bytes_eq, to_ascii_lower, trim_ascii};
use crate::FormatError;

verus! {

/// The sequences held by a vector of byte vectors.
pub open spec fn vecs_view(v: Seq<Vec<u8>>) -> Seq<Seq<u8>> {
    v.map_values(|x: Vec<u8>| x@)
}

/// Trust rules for verification.
pub struct Policy {
    /// Accept signatures older than the bound.
    pub allow_expired: bool,
    /// Greatest accepted signature age in whole days.
    pub max_age_days: Option<u32>,
    /// Hex-encoded public keys that may verify; any key where absent.
    pub allowed_public_keys: Option<Vec<Vec<u8>>>,
}

/// The mathematical value of a policy.
pub struct PolicyV {
    pub allow_expired: bool,
    pub max_age_days: Option<u32>,
    pub allowed_public_keys: Option<Seq<Seq<u8>>>,
}

impl View for Policy {
    type V = PolicyV;

    open spec fn view(&self) -> PolicyV {
        PolicyV {
            allow_expired: self.allow_expired,
            max_age_days: self.max_age_days,
            allowed_public_keys: match self.allowed_public_keys {
                Some(ref v) => Some(vecs_view(v@)),
                None => None,
            },
        }
    }
}

/// Whether the JSON object document has the named top-level member,
/// and whether that member is `null`; `None` where the document is no
/// JSON object or the member is absent.
pub uninterp spec fn json_member_null(b: Seq<u8>, key: Seq<char>) -> Option<bool>;

/// The named top-level boolean member of the JSON object document.
pub uninterp spec fn json_bool_field(b: Seq<u8>, key: Seq<char>) -> Option<bool>;

/// The named top-level unsigned-integer member of the JSON object
/// document.
pub uninterp spec fn json_uint_field(b: Seq<u8>, key: Seq<char>) -> Option<u64>;

/// The named top-level member of the JSON object document as an array
/// of strings; `None` where it is absent, no array, or holds an
/// element that is no string.
pub uninterp spec fn json_str_list_field(b: Seq<u8>, key: Seq<char>) -> Option<Seq<Seq<u8>>>;

/// Relies on serde_json::from_slice, Value::get and Value::is_null:
/// presence and nullness of the named member, a function of the bytes
/// and the key alone.
#[verifier::external_body]
fn json_member_null_x(b: &[u8], key: &str) -> (r: Option<bool>)
    ensures
        r == json_member_null(b@, key@),
{
    let doc: serde_json::Value = match serde_json::from_slice(b) {
        Ok(v) => v,
        Err(_) => {
            return None;
        },
    };
    match doc.get(key) {
        Some(v) => Some(v.is_null()),
        None => None,
    }
}

/// Relies on serde_json::from_slice, Value::get and Value::as_bool: the
/// named boolean member, a function of the bytes and the key alone.
#[verifier::external_body]
fn json_bool_field_x(b: &[u8], key: &str) -> (r: Option<bool>)
    ensures
        r == json_bool_field(b@, key@),
{
    let doc: serde_json::Value = match serde_json::from_slice(b) {
        Ok(v) => v,
        Err(_) => {
            return None;
        },
    };
    doc.get(key).and_then(|v| v.as_bool())
}

/// Relies on serde_json::from_slice, Value::get and Value::as_u64: the
/// named unsigned-integer member, a function of the bytes and the key
/// alone.
#[verifier::external_body]
fn json_uint_field_x(b: &[u8], key: &str) -> (r: Option<u64>)
    ensures
        r == json_uint_field(b@, key@),
{
    let doc: serde_json::Value = match serde_json::from_slice(b) {
        Ok(v) => v,
        Err(_) => {
            return None;
        },
    };
    doc.get(key).and_then(|v| v.as_u64())
}

/// Relies on serde_json::from_slice, Value::get, Value::as_array and
/// Value::as_str: the named member's strings, a function of the bytes
/// and the key alone.
#[verifier::external_body]
fn json_str_list_field_x(b: &[u8], key: &str) -> (r: Option<Vec<Vec<u8>>>)
    ensures
        r matches Some(v) ==> json_str_list_field(b@, key@) == Some(vecs_view(v@)),
        r is None ==> json_str_list_field(b@, key@) is None,
{
    let doc: serde_json::Value = serde_json::from_slice(b).ok()?;
    let arr = doc.get(key)?.as_array()?;
    arr.iter().map(|v| v.as_str().map(|s| s.as_bytes().to_vec())).collect()
}

/// The policy named by the bytes, read as serde reads it: the document
/// must be a JSON object; unknown members are ignored whatever value
/// they hold; `allow_expired` must be a boolean where present and
/// defaults to false; `max_age_days` must be an unsigned integer up to
/// the 32-bit maximum, or null; `allowed_public_keys` must be an array
/// of strings, or null. `None` is the read error.
pub open spec fn policy_parse(b: Seq<u8>) -> Option<PolicyV> {
    if crate::sign::json_root_object(b) != Some(true) {
        None
    } else {
        let ae = match json_member_null(b, "allow_expired"@) {
            None => Some(false),
            Some(_) => json_bool_field(b, "allow_expired"@),
        };
        let mad = match json_member_null(b, "max_age_days"@) {
            None => Some(None),
            Some(true) => Some(None),
            Some(false) => match json_uint_field(b, "max_age_days"@) {
                Some(n) => if n <= u32::MAX as u64 {
                    Some(Some(n as u32))
                } else {
                    None
                },
                None => None,
            },
        };
        let apk = match json_member_null(b, "allowed_public_keys"@) {
            None => Some(None),
            Some(true) => Some(None),
            Some(false) => match json_str_list_field(b, "allowed_public_keys"@) {
                Some(items) => Some(Some(items)),
                None => None,
            },
        };
        match (ae, mad, apk) {
            (Some(a), Some(m), Some(k)) => Some(
                PolicyV { allow_expired: a, max_age_days: m, allowed_public_keys: k },
            ),
            _ => None,
        }
    }
}

impl Policy {
    /// Reads a policy from the bytes of a policy file; the one error is
    /// malformed policy JSON.
    pub fn load(bytes: &[u8]) -> (r: Result<Policy, FormatError>)
        ensures
            r matches Ok(p) ==> policy_parse(bytes@) == Some(p@),
            r is Err ==> policy_parse(bytes@) is None,
            r matches Err(e) ==> e == FormatError::InvalidJson,
    {
        match crate::sign::json_root_object_x(bytes) {
            Some(true) => {},
            _ => {
                return Err(FormatError::InvalidJson);
            },
        }
        let allow_expired = match json_member_null_x(bytes, "allow_expired") {
            None => false,
            Some(_) => match json_bool_field_x(bytes, "allow_expired") {
                Some(v) => v,
                None => {
                    return Err(FormatError::InvalidJson);
                },
            },
        };
        let max_age_days = match json_member_null_x(bytes, "max_age_days") {
            None => None,
            Some(true) => None,
            Some(false) => match json_uint_field_x(bytes, "max_age_days") {
                Some(n) => if n <= u32::MAX as u64 {
                    Some(n as u32)
                } else {
                    return Err(FormatError::InvalidJson);
                },
                None => {
                    return Err(FormatError::InvalidJson);
                },
            },
        };
        let allowed_public_keys = match json_member_null_x(bytes, "allowed_public_keys") {
            None => None,
            Some(true) => None,
            Some(false) => match json_str_list_field_x(bytes, "allowed_public_keys") {
                Some(items) => Some(items),
                None => {
                    return Err(FormatError::InvalidJson);
                },
            },
        };
        Ok(Policy { allow_expired, max_age_days, allowed_public_keys })
    }
}

/// Whether the verifying key's hex form matches one allowlist entry,
/// after trimming ASCII whitespace and lower-casing in ASCII.
pub open spec fn allowlist_ok(list: Seq<Seq<u8>>, pk_hex: Seq<u8>) -> bool {
    exists|i: int|
        0 <= i < list.len() && ascii_lower(ascii_trim(#[trigger] list[i])) == ascii_lower(pk_hex)
}

/// Looks the verifying key's hex form up in the allowlist.
pub fn allowlist_contains(list: &Vec<Vec<u8>>, pk_hex: &[u8]) -> (r: bool)
    ensures
        r == allowlist_ok(vecs_view(list@), pk_hex@),
{
    let target = to_ascii_lower(pk_hex);
    let mut i: usize = 0;
    while i < list.len()
        invariant
            i <= list@.len(),
            target@ == ascii_lower(pk_hex@),
            forall|j: int|
                0 <= j < i ==> ascii_lower(ascii_trim(#[trigger] vecs_view(list@)[j]))
                    != ascii_lower(pk_hex@),
        decreases list@.len() - i,
    {
        let trimmed = trim_ascii(list[i].as_slice());
        let lowered = to_ascii_lower(trimmed.as_slice());
        if bytes_eq(lowered.as_slice(), target.as_slice()) {
            proof {
                assert(vecs_view(list@)[i as int] == list@[i as int]@);
            }
            return true;
        }
        proof {
            assert(vecs_view(list@)[i as int] == list@[i as int]@);
        }
        i = i + 1;
    }
    false
}

/// The signature's age in whole days at `now`, truncated toward zero;
/// negative where the timestamp lies in the future.
pub open spec fn age_days(now: i64, ts: i64) -> int {
    if now >= ts {
        (now - ts) / 86400
    } else {
        -((ts - now) / 86400)
    }
}

/// Computes the signature's age in whole days.
pub fn age_days_x(now: i64, ts: i64) -> (r: i128)
    ensures
        r == age_days(now, ts),
{
    if now >= ts {
        (now as i128 - ts as i128) / 86400
    } else {
        -((ts as i128 - now as i128) / 86400)
    }
}

/// The Unix second named by an RFC3339 timestamp text.
pub uninterp spec fn rfc3339_unix_of(ts: Seq<u8>) -> Option<i64>;

/// Relies on chrono::DateTime::parse_from_rfc3339 and
/// DateTime::timestamp: the Unix second of an RFC3339 instant, a
/// function of the text alone; `None` where the text is not RFC3339.
#[verifier::external_body]
pub fn parse_rfc3339_unix(ts: &[u8]) -> (r: Option<i64>)
    ensures
        r == rfc3339_unix_of(ts@),
{
    let s = match core::str::from_utf8(ts) {
        Ok(s) => s,
        Err(_) => {
            return None;
        },
    };
    match chrono::DateTime::parse_from_rfc3339(s) {
        Ok(t) => Some(t.timestamp()),
        Err(_) => None,
    }
}

} // verus!
