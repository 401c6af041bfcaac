//! The batch signer: takes the files of a directory tree, already read
//! into memory by the shell, keeps the eligible ones (no hidden path
//! component, no signature sidecar), signs them in lexicographic path
//! order, and signs a manifest of the results. The whole batch is
//! computed before anything is written, so a failing key leaves no
//! partial outputs; this is the transactional reading of the batch
//! design, chosen over signing files as they are read.
use vstd::prelude::*;
use vstd::multiset::Multiset;
use crate::crypto::{dilithium_sig_of, sha3_256_of, SECRET_KEY_LEN};
use crate::hexcode::hex_of;
use crate::jsontext::{obj_bytes, pairs_view};
use crate::key_provider::KeyProvider;
use crate::sign::{sign_outcome_ok, sign_prepared, SignError, SignOutcome};
use crate::text::{ascii_bytes, push_str_bytes, str_bytes};

verus! {

/// The sidecar path for a file: the path with `.sig` appended.
pub fn sig_path_for_file(path: &[u8]) -> (r: Vec<u8>)
    ensures
        r@ == path@ + ascii_bytes(".sig"@),
{
    proof {
        reveal_strlit(".sig");
    }
    let mut out = vstd::slice::slice_to_vec(path);
    push_str_bytes(&mut out, ".sig");
    out
}

/// Whether some path component begins with a dot.
pub open spec fn hidden_component(p: Seq<u8>) -> bool {
    exists|i: int| 0 <= i < p.len() && #[trigger] p[i] == 46 && (i == 0 || p[i - 1] == 47)
}

/// Whether the path names a signature sidecar.
pub open spec fn is_sidecar_path(p: Seq<u8>) -> bool {
    p.len() >= 4 && p.subrange(p.len() - 4, p.len() as int) == ascii_bytes(".sig"@)
}

/// A file the batch signs: not hidden, not a sidecar.
pub open spec fn eligible_path(p: Seq<u8>) -> bool {
    p.len() > 0 && !hidden_component(p) && !is_sidecar_path(p)
}

/// Decides eligibility of one relative path.
pub fn is_eligible(path: &[u8]) -> (r: bool)
    ensures
        r == eligible_path(path@),
{
    if path.len() == 0 {
        return false;
    }
    let mut i: usize = 0;
    while i < path.len()
        invariant
            i <= path@.len(),
            forall|j: int| 0 <= j < i ==> !(#[trigger] path@[j] == 46 && (j == 0 || path@[j - 1] == 47)),
        decreases path@.len() - i,
    {
        if path[i] == 46 && (i == 0 || path[i - 1] == 47) {
            return false;
        }
        i = i + 1;
    }
    if path.len() >= 4 {
        proof {
            reveal_strlit(".sig");
        }
        let tail = vstd::slice::slice_subrange(path, path.len() - 4, path.len());
        let sig = str_bytes(".sig");
        if crate::text::bytes_eq(tail, sig.as_slice()) {
            return false;
        }
    }
    true
}

/// Byte-lexicographic order on paths.
pub open spec fn lex_le(a: Seq<u8>, b: Seq<u8>) -> bool
    decreases a.len(),
{
    if a.len() == 0 {
        true
    } else if b.len() == 0 {
        false
    } else if a[0] < b[0] {
        true
    } else if a[0] > b[0] {
        false
    } else {
        lex_le(a.drop_first(), b.drop_first())
    }
}

proof fn lemma_lex_total(a: Seq<u8>, b: Seq<u8>)
    ensures
        lex_le(a, b) || lex_le(b, a),
    decreases a.len(),
{
    if a.len() == 0 || b.len() == 0 {
    } else if a[0] == b[0] {
        lemma_lex_total(a.drop_first(), b.drop_first());
    }
}

proof fn lemma_lex_trans(a: Seq<u8>, b: Seq<u8>, c: Seq<u8>)
    requires
        lex_le(a, b),
        lex_le(b, c),
    ensures
        lex_le(a, c),
    decreases a.len(),
{
    if a.len() == 0 || b.len() == 0 || c.len() == 0 {
    } else if a[0] == b[0] && b[0] == c[0] {
        lemma_lex_trans(a.drop_first(), b.drop_first(), c.drop_first());
    }
}

proof fn lemma_lex_refl(a: Seq<u8>)
    ensures
        lex_le(a, a),
    decreases a.len(),
{
    if a.len() > 0 {
        lemma_lex_refl(a.drop_first());
    }
}

/// Compares two paths in byte-lexicographic order.
pub fn lex_le_x(a: &[u8], b: &[u8]) -> (r: bool)
    ensures
        r == lex_le(a@, b@),
{
    let mut i: usize = 0;
    proof {
        assert(a@.subrange(0, a@.len() as int) =~= a@);
        assert(b@.subrange(0, b@.len() as int) =~= b@);
    }
    while i < a.len() && i < b.len()
        invariant
            i <= a@.len(),
            i <= b@.len(),
            lex_le(a@, b@) == lex_le(
                a@.subrange(i as int, a@.len() as int),
                b@.subrange(i as int, b@.len() as int),
            ),
        decreases a@.len() - i,
    {
        proof {
            let sa = a@.subrange(i as int, a@.len() as int);
            let sb = b@.subrange(i as int, b@.len() as int);
            assert(sa[0] == a@[i as int] && sb[0] == b@[i as int]);
            assert(sa.drop_first() =~= a@.subrange(i + 1 as int, a@.len() as int));
            assert(sb.drop_first() =~= b@.subrange(i + 1 as int, b@.len() as int));
        }
        if a[i] < b[i] {
            return true;
        }
        if a[i] > b[i] {
            return false;
        }
        i = i + 1;
    }
    proof {
        let sa = a@.subrange(i as int, a@.len() as int);
        let sb = b@.subrange(i as int, b@.len() as int);
        if i >= a@.len() {
            assert(sa.len() == 0);
        } else {
            assert(sb.len() == 0 && sa.len() > 0);
        }
    }
    i >= a.len()
}

/// Paths in non-decreasing lexicographic order.
pub open spec fn paths_sorted(v: Seq<(Seq<u8>, Seq<u8>)>) -> bool {
    forall|i: int, j: int| 0 <= i < j < v.len() ==> lex_le(#[trigger] v[i].0, #[trigger] v[j].0)
}

/// Sorts files by path, keeping exactly the same files.
fn sort_by_path(files: Vec<(Vec<u8>, Vec<u8>)>) -> (r: Vec<(Vec<u8>, Vec<u8>)>)
    ensures
        paths_sorted(pairs_view(r@)),
        pairs_view(r@).to_multiset() == pairs_view(files@).to_multiset(),
{
    let mut out: Vec<(Vec<u8>, Vec<u8>)> = Vec::new();
    let mut input = files;
    proof {
        broadcast use vstd::seq_lib::group_to_multiset_ensures;

        assert(pairs_view(out@) =~= Seq::<(Seq<u8>, Seq<u8>)>::empty());
        assert(pairs_view(out@).to_multiset() =~= Multiset::<(Seq<u8>, Seq<u8>)>::empty());
        assert(pairs_view(input@).to_multiset().add(pairs_view(out@).to_multiset())
            =~= pairs_view(files@).to_multiset());
    }
    while input.len() > 0
        invariant
            paths_sorted(pairs_view(out@)),
            pairs_view(input@).to_multiset().add(pairs_view(out@).to_multiset()) == pairs_view(
                files@,
            ).to_multiset(),
        decreases input@.len(),
    {
        let ghost old_input = input@;
        let ghost old_out = out@;
        let f = input.pop().unwrap();
        let mut k = out.len();
        while k > 0 && !lex_le_x(out[k - 1].0.as_slice(), f.0.as_slice())
            invariant
                k <= out@.len(),
                out@ == old_out,
                forall|j: int|
                    k <= j < out@.len() ==> lex_le(f.0@, #[trigger] pairs_view(out@)[j].0),
            decreases k,
        {
            proof {
                lemma_lex_total(pairs_view(out@)[k - 1].0, f.0@);
                assert(pairs_view(out@)[k - 1] == (out@[k - 1].0@, out@[k - 1].1@));
            }
            k = k - 1;
        }
        proof {
            if k > 0 {
                assert(pairs_view(out@)[k - 1] == (out@[k - 1].0@, out@[k - 1].1@));
            }
        }
        out.insert(k, f);
        proof {
            let ghost new_out = out@;
            assert(pairs_view(new_out) =~= pairs_view(old_out).insert(
                k as int,
                (new_out[k as int].0@, new_out[k as int].1@),
            ));
            assert forall|i: int, j: int|
                0 <= i < j < pairs_view(new_out).len() implies lex_le(
                #[trigger] pairs_view(new_out)[i].0,
                #[trigger] pairs_view(new_out)[j].0,
            ) by {
                let pv = pairs_view(new_out);
                let ov = pairs_view(old_out);
                if j < k {
                    assert(pv[i] == ov[i] && pv[j] == ov[j]);
                } else if i < k && j == k {
                    assert(pv[i] == ov[i]);
                    assert(lex_le(ov[k - 1].0, pv[k as int].0));
                    if i == k - 1 {
                    } else {
                        assert(lex_le(ov[i].0, ov[k - 1].0));
                        lemma_lex_trans(ov[i].0, ov[k - 1].0, pv[k as int].0);
                    }
                } else if i == k && j > k {
                    assert(pv[j] == ov[j - 1]);
                } else if i < k && j > k {
                    assert(pv[i] == ov[i] && pv[j] == ov[j - 1]);
                } else {
                    assert(pv[i] == ov[i - 1] && pv[j] == ov[j - 1]);
                }
            }
            assert(old_input.drop_last() =~= input@);
            lemma_multiset_insert_pop(old_input, input@, old_out, new_out, k as int);
        }
    }
    proof {
        broadcast use vstd::seq_lib::group_to_multiset_ensures;

        assert(pairs_view(input@) =~= Seq::<(Seq<u8>, Seq<u8>)>::empty());
        assert(pairs_view(input@).to_multiset() =~= Multiset::<(Seq<u8>, Seq<u8>)>::empty());
        assert(pairs_view(input@).to_multiset().add(pairs_view(out@).to_multiset())
            =~= pairs_view(out@).to_multiset());
    }
    out
}

proof fn lemma_multiset_insert_pop(
    old_input: Seq<(Vec<u8>, Vec<u8>)>,
    new_input: Seq<(Vec<u8>, Vec<u8>)>,
    old_out: Seq<(Vec<u8>, Vec<u8>)>,
    new_out: Seq<(Vec<u8>, Vec<u8>)>,
    k: int,
)
    requires
        old_input.len() > 0,
        new_input == old_input.drop_last(),
        0 <= k <= old_out.len(),
        pairs_view(new_out) == pairs_view(old_out).insert(
            k,
            (old_input.last().0@, old_input.last().1@),
        ),
    ensures
        pairs_view(new_input).to_multiset().add(pairs_view(new_out).to_multiset()) == pairs_view(
            old_input,
        ).to_multiset().add(pairs_view(old_out).to_multiset()),
{
    broadcast use vstd::seq_lib::group_to_multiset_ensures;

    let x = (old_input.last().0@, old_input.last().1@);
    assert(pairs_view(old_input) =~= pairs_view(new_input).push(x));
    lemma_insert_multiset(pairs_view(old_out), x, k);
    assert(pairs_view(new_input).push(x).to_multiset() =~= pairs_view(new_input).to_multiset().insert(x));
    assert(pairs_view(new_input).to_multiset().add(pairs_view(new_out).to_multiset())
        =~= pairs_view(old_input).to_multiset().add(pairs_view(old_out).to_multiset()));
}

proof fn lemma_insert_multiset(s: Seq<(Seq<u8>, Seq<u8>)>, x: (Seq<u8>, Seq<u8>), k: int)
    requires
        0 <= k <= s.len(),
    ensures
        s.insert(k, x).to_multiset() == s.to_multiset().insert(x),
{
    broadcast use vstd::seq_lib::group_to_multiset_ensures;

    let l = s.subrange(0, k);
    let r = s.subrange(k, s.len() as int);
    let t = s.insert(k, x);
    assert(t =~= l + (seq![x] + r));
    vstd::seq_lib::lemma_multiset_commutative(l, seq![x] + r);
    vstd::seq_lib::lemma_multiset_commutative(seq![x], r);
    assert(s =~= l + r);
    vstd::seq_lib::lemma_multiset_commutative(l, r);
    assert(seq![x] =~= Seq::<(Seq<u8>, Seq<u8>)>::empty().push(x));
    assert(Seq::<(Seq<u8>, Seq<u8>)>::empty().push(x).to_multiset() =~= Multiset::<
        (Seq<u8>, Seq<u8>),
    >::empty().insert(x));
    assert(s.insert(k, x).to_multiset() =~= s.to_multiset().insert(x));
}


/// The manifest's per-entry field names.
pub open spec fn manifest_keys() -> (Seq<u8>, Seq<u8>) {
    (ascii_bytes("path"@), ascii_bytes("signature_hash"@))
}

/// One manifest entry: the relative path and the signature reference.
pub open spec fn manifest_entry_bytes(e: (Seq<u8>, Seq<u8>)) -> Seq<u8> {
    obj_bytes(seq![(manifest_keys().0, e.0), (manifest_keys().1, e.1)])
}

/// The first `n` manifest entries, comma-joined.
pub open spec fn manifest_items(entries: Seq<(Seq<u8>, Seq<u8>)>, n: int) -> Seq<u8>
    decreases n,
{
    if n <= 0 {
        Seq::empty()
    } else if n == 1 {
        manifest_entry_bytes(entries[0])
    } else {
        manifest_items(entries, n - 1) + seq![44u8] + manifest_entry_bytes(entries[n - 1])
    }
}

/// The manifest document listing every signed file of a batch.
pub open spec fn manifest_bytes_of(entries: Seq<(Seq<u8>, Seq<u8>)>) -> Seq<u8> {
    ascii_bytes("{\"entries\":["@) + manifest_items(entries, entries.len() as int) + ascii_bytes(
        "]}"@,
    )
}

/// Renders the manifest for the given entries.
pub fn manifest_bytes(entries: &Vec<(Vec<u8>, Vec<u8>)>) -> (r: Vec<u8>)
    ensures
        r@ == manifest_bytes_of(pairs_view(entries@)),
{
    proof {
        reveal_strlit("{\"entries\":[");
        reveal_strlit("]}");
        reveal_strlit("path");
        reveal_strlit("signature_hash");
    }
    let mut out = str_bytes("{\"entries\":[");
    let ghost pv = pairs_view(entries@);
    let mut i: usize = 0;
    proof {
        assert(out@ =~= ascii_bytes("{\"entries\":["@) + manifest_items(pv, 0));
    }
    while i < entries.len()
        invariant
            i <= entries@.len(),
            pv == pairs_view(entries@),
            out@ == ascii_bytes("{\"entries\":["@) + manifest_items(pv, i as int),
        decreases entries@.len() - i,
    {
        if i > 0 {
            out.push(44);
        }
        proof {
            reveal_strlit("{\"entries\":[");
            reveal_strlit("path");
            reveal_strlit("signature_hash");
        }
        let mut pairs: Vec<(Vec<u8>, Vec<u8>)> = Vec::new();
        pairs.push((str_bytes("path"), vstd::slice::slice_to_vec(entries[i].0.as_slice())));
        pairs.push(
            (str_bytes("signature_hash"), vstd::slice::slice_to_vec(entries[i].1.as_slice())),
        );
        let eb = crate::jsontext::emit_obj(&pairs);
        proof {
            assert(pv[i as int] == (entries@[i as int].0@, entries@[i as int].1@));
            assert(pairs_view(pairs@) =~= seq![
                (manifest_keys().0, pv[i as int].0),
                (manifest_keys().1, pv[i as int].1),
            ]);
            assert(eb@ == manifest_entry_bytes(pv[i as int]));
        }
        crate::text::push_bytes(&mut out, eb.as_slice());
        proof {
            assert(out@ =~= ascii_bytes("{\"entries\":["@) + manifest_items(pv, i + 1 as int));
        }
        i = i + 1;
    }
    push_str_bytes(&mut out, "]}");
    proof {
        assert(out@ =~= manifest_bytes_of(pv));
    }
    out
}

/// The index just after the last path separator.
pub open spec fn base_start(p: Seq<u8>) -> int
    decreases p.len(),
{
    if p.len() == 0 {
        0
    } else if p.last() == 47 {
        p.len() as int
    } else {
        base_start(p.drop_last())
    }
}

/// The path's final component, the name ledger entries carry.
pub open spec fn base_name(p: Seq<u8>) -> Seq<u8> {
    p.subrange(base_start(p), p.len() as int)
}

proof fn lemma_base_start_bounds(p: Seq<u8>)
    ensures
        0 <= base_start(p) <= p.len(),
    decreases p.len(),
{
    if p.len() > 0 && p.last() != 47 {
        lemma_base_start_bounds(p.drop_last());
    }
}

/// Extracts the path's final component.
pub fn base_name_x(p: &[u8]) -> (r: Vec<u8>)
    ensures
        r@ == base_name(p@),
{
    let mut i = p.len();
    proof {
        assert(p@.subrange(0, p@.len() as int) =~= p@);
        lemma_base_start_bounds(p@);
    }
    while i > 0 && p[i - 1] != 47
        invariant
            i <= p@.len(),
            base_start(p@) == base_start(p@.subrange(0, i as int)),
            base_start(p@) <= i,
        decreases i,
    {
        proof {
            assert(p@.subrange(0, i as int).drop_last() =~= p@.subrange(0, i as int - 1));
            assert(p@.subrange(0, i as int).last() == p@[i - 1]);
            lemma_base_start_bounds(p@.subrange(0, i as int - 1));
        }
        i = i - 1;
    }
    proof {
        if i > 0 {
            assert(p@.subrange(0, i as int).last() == p@[i - 1]);
        }
        assert(base_start(p@) == i);
    }
    vstd::slice::slice_to_vec(vstd::slice::slice_subrange(p, i, p.len()))
}

/// The name of the file that lists a batch's signatures.
pub open spec fn manifest_name() -> Seq<u8> {
    ascii_bytes("manifest"@) + ascii_bytes(".json"@)
}

/// Builds the batch listing's file name.
pub fn manifest_file_name() -> (r: Vec<u8>)
    ensures
        r@ == manifest_name(),
{
    proof {
        reveal_strlit("manifest");
        reveal_strlit(".json");
    }
    let mut v = str_bytes("manifest");
    push_str_bytes(&mut v, ".json");
    v
}

/// One signed file of a batch: the relative path, the sidecar path
/// beside it, and the signing outputs.
pub struct SignedFile {
    pub rel_path: Vec<u8>,
    pub sig_path: Vec<u8>,
    pub outcome: SignOutcome,
}

/// The eligible files of the batch's input, in input order.
pub open spec fn eligible_of(inputs: Seq<(Seq<u8>, Seq<u8>)>) -> Seq<(Seq<u8>, Seq<u8>)> {
    inputs.filter(|p: (Seq<u8>, Seq<u8>)| eligible_path(p.0))
}

/// The manifest entries a batch result names: path and signature hash
/// of each signed file, in order.
pub open spec fn manifest_entries_view(files: Seq<SignedFile>) -> Seq<(Seq<u8>, Seq<u8>)> {
    files.map_values(|f: SignedFile| (f.rel_path@, f.outcome.signature_hash@))
}

/// The paths of a pair sequence.
pub open spec fn paths_of(v: Seq<(Seq<u8>, Seq<u8>)>) -> Seq<Seq<u8>> {
    v.map_values(|p: (Seq<u8>, Seq<u8>)| p.0)
}

/// One batch file is correct: its path is an eligible input's path, its
/// sidecar path appends `.sig`, and its outputs sign that input's
/// content under the batch timestamp.
pub open spec fn signed_file_ok(
    f: SignedFile,
    inputs: Seq<(Seq<u8>, Seq<u8>)>,
    ts: Seq<u8>,
    sk: Seq<u8>,
) -> bool {
    &&& f.sig_path@ == f.rel_path@ + ascii_bytes(".sig"@)
    &&& eligible_path(f.rel_path@)
    &&& exists|j: int|
        0 <= j < eligible_of(inputs).len() && (#[trigger] eligible_of(inputs)[j]).0 == f.rel_path@
            && sign_outcome_ok(
            f.outcome,
            eligible_of(inputs)[j].1,
            base_name(f.rel_path@),
            ts,
            sk,
        )
}

/// What a whole batch produces.
pub struct BatchOutcome {
    pub files: Vec<SignedFile>,
    pub manifest: Vec<u8>,
    pub manifest_file: SignedFile,
}

/// Runs the batch: keeps the eligible files, sorts them by path, signs
/// each, then signs the manifest of the results. The ledger receives
/// one line per file and one for the manifest. Fails exactly when the
/// provider's key material is unusable, and then nothing is produced.
pub fn run<P: KeyProvider>(files: &Vec<(Vec<u8>, Vec<u8>)>, timestamp: &[u8], provider: &P) -> (r:
    Result<BatchOutcome, SignError>)
    ensures
        r matches Ok(b) ==> {
            &&& provider.secret_key().len() == SECRET_KEY_LEN
            &&& b.files@.len() == eligible_of(pairs_view(files@)).len()
            &&& paths_sorted(manifest_entries_view(b.files@))
            &&& paths_of(manifest_entries_view(b.files@)).to_multiset() == paths_of(
                eligible_of(pairs_view(files@)),
            ).to_multiset()
            &&& forall|i: int|
                0 <= i < b.files@.len() ==> signed_file_ok(
                    #[trigger] b.files@[i],
                    pairs_view(files@),
                    timestamp@,
                    provider.secret_key(),
                )
            &&& b.manifest@ == manifest_bytes_of(manifest_entries_view(b.files@))
            &&& b.manifest_file.rel_path@ == manifest_name()
            &&& b.manifest_file.sig_path@ == manifest_name() + ascii_bytes(".sig"@)
            &&& sign_outcome_ok(
                b.manifest_file.outcome,
                b.manifest@,
                manifest_name(),
                timestamp@,
                provider.secret_key(),
            )
        },
        r is Err ==> provider.secret_key().len() != SECRET_KEY_LEN,
        provider.secret_key().len() == SECRET_KEY_LEN ==> r is Ok,
{
    let ghost inputs = pairs_view(files@);
    let mut elig: Vec<(Vec<u8>, Vec<u8>)> = Vec::new();
    let mut i: usize = 0;
    proof {
        reveal(Seq::filter);
        assert(pairs_view(files@).subrange(0, 0) =~= Seq::<(Seq<u8>, Seq<u8>)>::empty());
        assert(pairs_view(elig@) =~= eligible_of(inputs.subrange(0, 0)));
    }
    while i < files.len()
        invariant
            i <= files@.len(),
            inputs == pairs_view(files@),
            pairs_view(elig@) == eligible_of(inputs.subrange(0, i as int)),
        decreases files@.len() - i,
    {
        let ghost old_elig = elig@;
        if is_eligible(files[i].0.as_slice()) {
            elig.push(
                (
                    vstd::slice::slice_to_vec(files[i].0.as_slice()),
                    vstd::slice::slice_to_vec(files[i].1.as_slice()),
                ),
            );
        }
        proof {
            reveal(Seq::filter);
            let pre = inputs.subrange(0, i as int);
            let post = inputs.subrange(0, i + 1 as int);
            assert(post.drop_last() =~= pre);
            assert(post.last() == inputs[i as int]);
            assert(inputs[i as int] == (files@[i as int].0@, files@[i as int].1@));
            if eligible_path(inputs[i as int].0) {
                assert(pairs_view(elig@) =~= pairs_view(old_elig).push(
                    (files@[i as int].0@, files@[i as int].1@),
                ));
            }
            assert(pairs_view(elig@) =~= eligible_of(post));
        }
        i = i + 1;
    }
    proof {
        assert(inputs.subrange(0, inputs.len() as int) =~= inputs);
    }
    let sorted = sort_by_path(elig);
    let ghost spv = pairs_view(sorted@);
    let mut out_files: Vec<SignedFile> = Vec::new();
    let mut k: usize = 0;
    while k < sorted.len()
        invariant
            k <= sorted@.len(),
            spv == pairs_view(sorted@),
            paths_sorted(spv),
            spv.to_multiset() == eligible_of(inputs).to_multiset(),
            inputs == pairs_view(files@),
            out_files@.len() == k,
            forall|m: int|
                0 <= m < k ==> signed_file_ok(
                    #[trigger] out_files@[m],
                    inputs,
                    timestamp@,
                    provider.secret_key(),
                ),
            forall|m: int|
                0 <= m < k ==> (#[trigger] out_files@[m]).rel_path@ == spv[m].0
                    && out_files@[m].outcome.signature_hash@ == hex_of(
                    dilithium_sig_of(sha3_256_of(spv[m].1), provider.secret_key()),
                ),
        decreases sorted@.len() - k,
    {
        proof {
            broadcast use vstd::seq_lib::group_to_multiset_ensures;

            let x = spv[k as int];
            assert(spv.contains(x));
            assert(spv.to_multiset().count(x) > 0);
            assert(eligible_of(inputs).to_multiset().count(x) > 0);
            assert(eligible_of(inputs).contains(x));
            let j = choose|j: int|
                0 <= j < eligible_of(inputs).len() && eligible_of(inputs)[j] == x;
            inputs.lemma_filter_pred(|p: (Seq<u8>, Seq<u8>)| eligible_path(p.0), j);
            assert(eligible_path(x.0));
            assert(x == (sorted@[k as int].0@, sorted@[k as int].1@));
        }
        let name = base_name_x(sorted[k].0.as_slice());
        let o = match sign_prepared(
            sorted[k].1.as_slice(),
            name.as_slice(),
            timestamp,
            provider,
        ) {
            Ok(o) => o,
            Err(e) => {
                return Err(e);
            },
        };
        let rel = vstd::slice::slice_to_vec(sorted[k].0.as_slice());
        let sp = sig_path_for_file(rel.as_slice());
        let f = SignedFile { rel_path: rel, sig_path: sp, outcome: o };
        out_files.push(f);
        proof {
            let fv = out_files@.last();
            let x = spv[k as int];
            assert(fv.rel_path@ == x.0 && fv.sig_path@ == x.0 + ascii_bytes(".sig"@));
            assert(sign_outcome_ok(fv.outcome, x.1, base_name(x.0), timestamp@,
                provider.secret_key()));
            assert(eligible_of(inputs).contains(x)) by {
                broadcast use vstd::seq_lib::group_to_multiset_ensures;

                assert(spv.contains(x));
                assert(spv.to_multiset().count(x) > 0);
                assert(eligible_of(inputs).to_multiset().count(x) > 0);
            }
            assert(signed_file_ok(fv, inputs, timestamp@, provider.secret_key()));
        }
        k = k + 1;
    }
    let mut entries: Vec<(Vec<u8>, Vec<u8>)> = Vec::new();
    let mut m: usize = 0;
    proof {
        assert(pairs_view(entries@) =~= manifest_entries_view(out_files@).subrange(0, 0));
    }
    while m < out_files.len()
        invariant
            m <= out_files@.len(),
            pairs_view(entries@) == manifest_entries_view(out_files@).subrange(0, m as int),
        decreases out_files@.len() - m,
    {
        let ghost old_entries = entries@;
        let ep = vstd::slice::slice_to_vec(out_files[m].rel_path.as_slice());
        let eh = vstd::slice::slice_to_vec(out_files[m].outcome.signature_hash.as_slice());
        entries.push((ep, eh));
        proof {
            assert(entries@.last().0@ == out_files@[m as int].rel_path@);
            assert(entries@.last().1@ == out_files@[m as int].outcome.signature_hash@);
            assert(pairs_view(entries@) =~= pairs_view(old_entries).push(
                (out_files@[m as int].rel_path@, out_files@[m as int].outcome.signature_hash@),
            ));
            assert(manifest_entries_view(out_files@)[m as int] == (
                out_files@[m as int].rel_path@,
                out_files@[m as int].outcome.signature_hash@,
            ));
            assert(pairs_view(entries@) =~= manifest_entries_view(out_files@).subrange(
                0,
                m + 1 as int,
            ));
        }
        m = m + 1;
    }
    proof {
        assert(manifest_entries_view(out_files@).subrange(
            0,
            manifest_entries_view(out_files@).len() as int,
        ) =~= manifest_entries_view(out_files@));
    }
    let manifest = manifest_bytes(&entries);
    let mname = manifest_file_name();
    let mo = match sign_prepared(manifest.as_slice(), mname.as_slice(), timestamp, provider) {
        Ok(o) => o,
        Err(e) => {
            return Err(e);
        },
    };
    let msig = sig_path_for_file(mname.as_slice());
    let mname2 = manifest_file_name();
    let manifest_file = SignedFile { rel_path: mname2, sig_path: msig, outcome: mo };
    let b = BatchOutcome { files: out_files, manifest, manifest_file };
    proof {
        broadcast use vstd::seq_lib::group_to_multiset_ensures;

        assert(b.files@.len() == eligible_of(inputs).len()) by {
            assert(spv.to_multiset().len() == eligible_of(inputs).to_multiset().len());
        }
        assert(paths_sorted(manifest_entries_view(b.files@))) by {
            assert forall|i2: int, j2: int|
                0 <= i2 < j2 < manifest_entries_view(b.files@).len() implies lex_le(
                #[trigger] manifest_entries_view(b.files@)[i2].0,
                #[trigger] manifest_entries_view(b.files@)[j2].0,
            ) by {
                assert(manifest_entries_view(b.files@)[i2].0 == spv[i2].0);
                assert(manifest_entries_view(b.files@)[j2].0 == spv[j2].0);
                assert(lex_le(spv[i2].0, spv[j2].0));
            }
        }
        lemma_paths_multiset(manifest_entries_view(b.files@), spv);
        lemma_paths_multiset_eq(spv, eligible_of(inputs));
        assert(b.manifest_file.rel_path@ == manifest_name());
    }
    Ok(b)
}

proof fn lemma_paths_multiset(a: Seq<(Seq<u8>, Seq<u8>)>, b: Seq<(Seq<u8>, Seq<u8>)>)
    requires
        a.len() == b.len(),
        forall|i: int| 0 <= i < a.len() ==> (#[trigger] a[i]).0 == b[i].0,
    ensures
        paths_of(a).to_multiset() == paths_of(b).to_multiset(),
{
    assert(paths_of(a) =~= paths_of(b));
}

proof fn lemma_paths_multiset_eq(a: Seq<(Seq<u8>, Seq<u8>)>, b: Seq<(Seq<u8>, Seq<u8>)>)
    requires
        a.to_multiset() == b.to_multiset(),
    ensures
        paths_of(a).to_multiset() == paths_of(b).to_multiset(),
    decreases a.len(),
{
    broadcast use vstd::seq_lib::group_to_multiset_ensures;

    if a.len() == 0 {
        assert(b.to_multiset().len() == 0);
        assert(paths_of(a) =~= Seq::<Seq<u8>>::empty());
        assert(paths_of(b) =~= Seq::<Seq<u8>>::empty());
    } else {
        let x = a.last();
        assert(a.to_multiset().count(x) > 0) by {
            assert(a.contains(x));
        }
        assert(b.contains(x)) by {
            assert(b.to_multiset().count(x) > 0);
        }
        let bi = choose|bi: int| 0 <= bi < b.len() && b[bi] == x;
        let a2 = a.drop_last();
        let b2 = b.remove(bi);
        assert(a2.to_multiset() =~= b2.to_multiset()) by {
            assert(a =~= a2.push(x));
            assert(a2.push(x).to_multiset() =~= a2.to_multiset().insert(x));
            assert(b2.to_multiset() =~= b.to_multiset().remove(x));
        }
        lemma_paths_multiset_eq(a2, b2);
        assert(paths_of(a) =~= paths_of(a2).push(x.0));
        assert(paths_of(a2).push(x.0).to_multiset() =~= paths_of(a2).to_multiset().insert(x.0));
        assert(paths_of(b2) =~= paths_of(b).remove(bi));
        assert(paths_of(b).remove(bi).to_multiset() =~= paths_of(b).to_multiset().remove(
            paths_of(b)[bi],
        ));
        assert(paths_of(b)[bi] == x.0);
        assert(paths_of(a).to_multiset() =~= paths_of(b).to_multiset());
    }
}

} // verus!
