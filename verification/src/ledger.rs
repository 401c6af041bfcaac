//! The append-only transparency ledger: one JSON object per line,
//! newline-terminated. The library renders and appends lines on the
//! ledger bytes; the shell persists them with an append-only file.
use vstd::prelude::*;
use crate::jsontext::{
    lemma_obj_bytes_no_newline, lemma_obj_round_trip, no_newline, obj_bytes, pairs_view, parse_obj,
    emit_obj,
};
use crate::text::{ascii_bytes, bytes_eq, str_bytes};

verus! {

/// One signing event: issuance timestamp, artifact file name and the
/// hex-encoded signature, all as byte strings.
pub struct LedgerEntry {
    pub timestamp: Vec<u8>,
    pub file_name: Vec<u8>,
    pub signature_hash: Vec<u8>,
}

/// The field names of a ledger line, in writing order.
pub open spec fn ledger_keys() -> (Seq<u8>, Seq<u8>, Seq<u8>) {
    (
        ascii_bytes("timestamp"@),
        ascii_bytes("file_name"@),
        ascii_bytes("signature_hash"@),
    )
}

/// The JSON line recording one signing event, newline-terminated.
pub open spec fn ledger_line_of(ts: Seq<u8>, name: Seq<u8>, hash: Seq<u8>) -> Seq<u8> {
    obj_bytes(
        seq![
            (ledger_keys().0, ts),
            (ledger_keys().1, name),
            (ledger_keys().2, hash),
        ],
    ) + seq![10u8]
}

/// Renders the ledger line for one entry.
pub fn ledger_line(timestamp: &[u8], file_name: &[u8], signature_hash: &[u8]) -> (r: Vec<u8>)
    ensures
        r@ == ledger_line_of(timestamp@, file_name@, signature_hash@),
{
    let mut pairs: Vec<(Vec<u8>, Vec<u8>)> = Vec::new();
    proof {
        reveal_strlit("timestamp");
        reveal_strlit("file_name");
        reveal_strlit("signature_hash");
    }
    pairs.push((str_bytes("timestamp"), vstd::slice::slice_to_vec(timestamp)));
    pairs.push((str_bytes("file_name"), vstd::slice::slice_to_vec(file_name)));
    pairs.push((str_bytes("signature_hash"), vstd::slice::slice_to_vec(signature_hash)));
    let mut line = emit_obj(&pairs);
    proof {
        assert(pairs_view(pairs@) =~= seq![
            (ledger_keys().0, timestamp@),
            (ledger_keys().1, file_name@),
            (ledger_keys().2, signature_hash@),
        ]);
    }
    line.push(10);
    proof {
        assert(line@ =~= ledger_line_of(timestamp@, file_name@, signature_hash@));
    }
    line
}

/// Appends one entry's line to the ledger bytes. Nothing already in the
/// ledger changes: the new bytes are exactly the old bytes followed by
/// the one new line.
pub fn append_entry(ledger: &mut Vec<u8>, timestamp: &[u8], file_name: &[u8], signature_hash: &[u8])
    ensures
        final(ledger)@ == old(ledger)@ + ledger_line_of(timestamp@, file_name@, signature_hash@),
{
    let line = ledger_line(timestamp, file_name, signature_hash);
    crate::text::push_bytes(ledger, line.as_slice());
}

/// Reads one ledger line back, without its trailing newline; `Some`
/// exactly when the bytes are a flat JSON object with the three ledger
/// fields, in writing order.
pub fn parse_ledger_line(line: &[u8]) -> (r: Option<LedgerEntry>)
    ensures
        r matches Some(e) ==> parse_obj(line@) == Some(
            seq![
                (ledger_keys().0, e.timestamp@),
                (ledger_keys().1, e.file_name@),
                (ledger_keys().2, e.signature_hash@),
            ],
        ),
        r is None ==> !ledger_shaped(parse_obj(line@)),
{
    proof {
        reveal_strlit("timestamp");
        reveal_strlit("file_name");
        reveal_strlit("signature_hash");
    }
    let pairs = match crate::jsontext::parse_obj_x(line) {
        Some(p) => p,
        None => {
            return None;
        },
    };
    if pairs.len() != 3 {
        return None;
    }
    let k0 = str_bytes("timestamp");
    let k1 = str_bytes("file_name");
    let k2 = str_bytes("signature_hash");
    if !(bytes_eq(pairs[0].0.as_slice(), k0.as_slice()) && bytes_eq(
        pairs[1].0.as_slice(),
        k1.as_slice(),
    ) && bytes_eq(pairs[2].0.as_slice(), k2.as_slice())) {
        return None;
    }
    let mut p = pairs;
    let (_, h) = p.pop().unwrap();
    let (_, n) = p.pop().unwrap();
    let (_, t) = p.pop().unwrap();
    let e = LedgerEntry { timestamp: t, file_name: n, signature_hash: h };
    proof {
        assert(parse_obj(line@) == Some(pairs_view(pairs@)));
        assert(pairs_view(pairs@) =~= seq![
            (ledger_keys().0, e.timestamp@),
            (ledger_keys().1, e.file_name@),
            (ledger_keys().2, e.signature_hash@),
        ]);
    }
    Some(e)
}

/// Whether a parse result is a three-field ledger object in writing
/// order.
pub open spec fn ledger_shaped(r: Option<Seq<(Seq<u8>, Seq<u8>)>>) -> bool {
    r matches Some(pairs) && pairs.len() == 3 && pairs[0].0 == ledger_keys().0 && pairs[1].0
        == ledger_keys().1 && pairs[2].0 == ledger_keys().2
}

/// How many newline bytes `s` holds; the ledger's line count.
pub open spec fn newline_count(s: Seq<u8>) -> int
    decreases s.len(),
{
    if s.len() == 0 {
        0
    } else {
        newline_count(s.drop_last()) + if s.last() == 10 {
            1int
        } else {
            0int
        }
    }
}

proof fn lemma_newline_count_concat(a: Seq<u8>, b: Seq<u8>)
    ensures
        newline_count(a + b) == newline_count(a) + newline_count(b),
    decreases b.len(),
{
    if b.len() == 0 {
        assert(a + b =~= a);
    } else {
        lemma_newline_count_concat(a, b.drop_last());
        assert((a + b).drop_last() =~= a + b.drop_last());
        assert((a + b).last() == b.last());
    }
}

proof fn lemma_no_newline_count_zero(s: Seq<u8>)
    requires
        no_newline(s),
    ensures
        newline_count(s) == 0,
    decreases s.len(),
{
    if s.len() > 0 {
        assert(no_newline(s.drop_last()));
        lemma_no_newline_count_zero(s.drop_last());
    }
}

/// The ledger is append-only and line-structured: an append leaves the
/// old bytes as an unchanged prefix, adds exactly one line, and that
/// line, shorn of its newline, parses back to the entry written.
pub proof fn lemma_ledger_append_only(content: Seq<u8>, ts: Seq<u8>, name: Seq<u8>, hash: Seq<u8>)
    ensures
        (content + ledger_line_of(ts, name, hash)).subrange(0, content.len() as int) == content,
        newline_count(content + ledger_line_of(ts, name, hash)) == newline_count(content) + 1,
        parse_obj(ledger_line_of(ts, name, hash).drop_last()) == Some(
            seq![(ledger_keys().0, ts), (ledger_keys().1, name), (ledger_keys().2, hash)],
        ),
        forall|i: int|
            0 <= i < ledger_line_of(ts, name, hash).len() - 1 ==> ledger_line_of(ts, name, hash)[i]
                != 10,
        ledger_line_of(ts, name, hash).last() == 10,
{
    let line = ledger_line_of(ts, name, hash);
    let pairs = seq![(ledger_keys().0, ts), (ledger_keys().1, name), (ledger_keys().2, hash)];
    let obj = obj_bytes(pairs);
    assert((content + line).subrange(0, content.len() as int) =~= content);
    lemma_obj_bytes_no_newline(pairs);
    lemma_newline_count_concat(content, line);
    lemma_newline_count_concat(obj, seq![10u8]);
    lemma_no_newline_count_zero(obj);
    assert(line =~= obj + seq![10u8]);
    assert(newline_count(seq![10u8]) == 1) by {
        assert(seq![10u8].len() == 1);
        assert(seq![10u8].last() == 10);
        assert(seq![10u8].drop_last() =~= Seq::<u8>::empty());
        assert(newline_count(Seq::<u8>::empty()) == 0);
    }
    lemma_obj_round_trip(pairs);
    assert(line.drop_last() =~= obj);
    assert forall|i: int| 0 <= i < line.len() - 1 implies line[i] != 10 by {
        assert(line[i] == obj[i]);
    }
}

} // verus!
