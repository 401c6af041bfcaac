//! The JSON object form shared by sidecar signature files, ledger lines
//! and mirror payloads: a single flat object whose values are strings.
//!
//! Writing is canonical: no whitespace, keys in the order given, strings
//! escaped as JSON asks (quote, backslash, the short control escapes, and
//! `\u00XX` for the remaining control bytes). Reading is more tolerant:
//! whitespace is allowed around tokens, keys may come in any order, and
//! both short and `\u00XX` escapes are accepted for ASCII characters.
use vstd::prelude::*;
use crate::hexcode::{hex_digit_of, hex_val, is_hex_digit};

verus! {

/// The JSON escape of one byte.
pub open spec fn esc_byte(c: u8) -> Seq<u8> {
    if c == 34 {
        seq![92u8, 34u8]
    } else if c == 92 {
        seq![92u8, 92u8]
    } else if c == 8 {
        seq![92u8, 98u8]
    } else if c == 9 {
        seq![92u8, 116u8]
    } else if c == 10 {
        seq![92u8, 110u8]
    } else if c == 12 {
        seq![92u8, 102u8]
    } else if c == 13 {
        seq![92u8, 114u8]
    } else if c < 32 {
        seq![92u8, 117u8, 48u8, 48u8, hex_digit_of((c / 16) as u8), hex_digit_of((c % 16) as u8)]
    } else {
        seq![c]
    }
}

/// The JSON escape of a byte string.
pub open spec fn json_escaped(s: Seq<u8>) -> Seq<u8>
    decreases s.len(),
{
    if s.len() == 0 {
        Seq::empty()
    } else {
        esc_byte(s[0]) + json_escaped(s.drop_first())
    }
}

pub proof fn lemma_escaped_snoc(s: Seq<u8>, c: u8)
    ensures
        json_escaped(s.push(c)) == json_escaped(s) + esc_byte(c),
    decreases s.len(),
{
    if s.len() == 0 {
        assert(s.push(c)[0] == c);
        assert(s.push(c).drop_first() =~= Seq::<u8>::empty());
        assert(json_escaped(Seq::<u8>::empty()) =~= Seq::<u8>::empty());
        assert(json_escaped(s.push(c)) =~= json_escaped(s) + esc_byte(c));
    } else {
        assert(s.push(c)[0] == s[0]);
        assert(s.push(c).drop_first() =~= s.drop_first().push(c));
        lemma_escaped_snoc(s.drop_first(), c);
        assert(json_escaped(s.push(c)) =~= json_escaped(s) + esc_byte(c));
    }
}

/// Appends the JSON escape of `s` to `out`.
pub fn push_escaped(out: &mut Vec<u8>, s: &[u8])
    ensures
        final(out)@ == old(out)@ + json_escaped(s@),
{
    let mut i: usize = 0;
    while i < s.len()
        invariant
            i <= s@.len(),
            out@ == old(out)@ + json_escaped(s@.subrange(0, i as int)),
        decreases s@.len() - i,
    {
        let c = s[i];
        if c == 34 {
            out.push(92);
            out.push(34);
        } else if c == 92 {
            out.push(92);
            out.push(92);
        } else if c == 8 {
            out.push(92);
            out.push(98);
        } else if c == 9 {
            out.push(92);
            out.push(116);
        } else if c == 10 {
            out.push(92);
            out.push(110);
        } else if c == 12 {
            out.push(92);
            out.push(102);
        } else if c == 13 {
            out.push(92);
            out.push(114);
        } else if c < 32 {
            out.push(92);
            out.push(117);
            out.push(48);
            out.push(48);
            out.push(if c / 16 < 10 { c / 16 + 48 } else { c / 16 + 87 });
            out.push(if c % 16 < 10 { c % 16 + 48 } else { c % 16 + 87 });
        } else {
            out.push(c);
        }
        proof {
            lemma_escaped_snoc(s@.subrange(0, i as int), s@[i as int]);
            assert(s@.subrange(0, i as int).push(s@[i as int]) =~= s@.subrange(0, i + 1 as int));
            assert(out@ =~= old(out)@ + json_escaped(s@.subrange(0, i + 1 as int)));
        }
        i = i + 1;
    }
    proof {
        assert(s@.subrange(0, s@.len() as int) =~= s@);
    }
}

/// One emitted pair: `"key":"value"`, both parts escaped.
pub open spec fn pair_bytes(p: (Seq<u8>, Seq<u8>)) -> Seq<u8> {
    seq![34u8] + json_escaped(p.0) + seq![34u8, 58u8, 34u8] + json_escaped(p.1) + seq![34u8]
}

/// The emitted pairs joined with commas.
pub open spec fn obj_inner(pairs: Seq<(Seq<u8>, Seq<u8>)>) -> Seq<u8>
    decreases pairs.len(),
{
    if pairs.len() == 0 {
        Seq::empty()
    } else if pairs.len() == 1 {
        pair_bytes(pairs[0])
    } else {
        pair_bytes(pairs[0]) + seq![44u8] + obj_inner(pairs.drop_first())
    }
}

/// The canonical emission of a flat object of string fields.
pub open spec fn obj_bytes(pairs: Seq<(Seq<u8>, Seq<u8>)>) -> Seq<u8> {
    seq![123u8] + obj_inner(pairs) + seq![125u8]
}

/// The pairs of a vector of byte-vector pairs, as sequences.
pub open spec fn pairs_view(v: Seq<(Vec<u8>, Vec<u8>)>) -> Seq<(Seq<u8>, Seq<u8>)> {
    v.map_values(|p: (Vec<u8>, Vec<u8>)| (p.0@, p.1@))
}

fn emit_pair(out: &mut Vec<u8>, key: &[u8], val: &[u8])
    ensures
        final(out)@ == old(out)@ + pair_bytes((key@, val@)),
{
    out.push(34);
    push_escaped(out, key);
    out.push(34);
    out.push(58);
    out.push(34);
    push_escaped(out, val);
    out.push(34);
    proof {
        assert(out@ =~= old(out)@ + pair_bytes((key@, val@)));
    }
}

/// Emits `pairs` as one canonical flat JSON object.
pub fn emit_obj(pairs: &Vec<(Vec<u8>, Vec<u8>)>) -> (r: Vec<u8>)
    ensures
        r@ == obj_bytes(pairs_view(pairs@)),
{
    let mut out: Vec<u8> = Vec::new();
    out.push(123);
    let n = pairs.len();
    let mut i: usize = 0;
    while i < n
        invariant
            i <= n,
            n == pairs@.len(),
            out@ == seq![123u8] + emitted_prefix(pairs_view(pairs@), i as int),
        decreases n - i,
    {
        if i > 0 {
            out.push(44);
        }
        emit_pair(&mut out, pairs[i].0.as_slice(), pairs[i].1.as_slice());
        proof {
            lemma_emitted_prefix_snoc(pairs_view(pairs@), i as int);
            assert(pairs_view(pairs@)[i as int] == (pairs@[i as int].0@, pairs@[i as int].1@));
            assert(out@ =~= seq![123u8] + emitted_prefix(pairs_view(pairs@), i + 1 as int));
        }
        i = i + 1;
    }
    out.push(125);
    proof {
        lemma_emitted_prefix_all(pairs_view(pairs@));
        assert(out@ =~= obj_bytes(pairs_view(pairs@)));
    }
    out
}

/// The inner emission of the first `n` pairs.
pub open spec fn emitted_prefix(pairs: Seq<(Seq<u8>, Seq<u8>)>, n: int) -> Seq<u8>
    decreases n,
{
    if n <= 0 {
        Seq::empty()
    } else if n == 1 {
        pair_bytes(pairs[0])
    } else {
        emitted_prefix(pairs, n - 1) + seq![44u8] + pair_bytes(pairs[n - 1])
    }
}

proof fn lemma_emitted_prefix_snoc(pairs: Seq<(Seq<u8>, Seq<u8>)>, i: int)
    requires
        0 <= i < pairs.len(),
    ensures
        i == 0 ==> emitted_prefix(pairs, 1) == pair_bytes(pairs[0]),
        i > 0 ==> emitted_prefix(pairs, i + 1) == emitted_prefix(pairs, i) + seq![44u8]
            + pair_bytes(pairs[i]),
{
}

proof fn lemma_emitted_prefix_all(pairs: Seq<(Seq<u8>, Seq<u8>)>)
    ensures
        emitted_prefix(pairs, pairs.len() as int) == obj_inner(pairs),
    decreases pairs.len(),
{
    let n = pairs.len() as int;
    if n <= 1 {
    } else {
        lemma_emitted_prefix_all(pairs.drop_first());
        lemma_emitted_prefix_shift(pairs, n);
        assert(emitted_prefix(pairs, n) =~= pair_bytes(pairs[0]) + seq![44u8] + obj_inner(
            pairs.drop_first(),
        ));
    }
}

proof fn lemma_emitted_prefix_shift(pairs: Seq<(Seq<u8>, Seq<u8>)>, n: int)
    requires
        pairs.len() >= 1,
        1 <= n <= pairs.len(),
    ensures
        emitted_prefix(pairs, n) == pair_bytes(pairs[0]) + join_rest(
            emitted_prefix(pairs.drop_first(), n - 1),
        ),
    decreases n,
{
    if n == 1 {
        assert(emitted_prefix(pairs, 1) =~= pair_bytes(pairs[0]) + join_rest(Seq::empty()));
    } else {
        lemma_emitted_prefix_shift(pairs, n - 1);
        assert(pairs.drop_first()[n - 2] == pairs[n - 1]);
        assert(emitted_prefix(pairs, n) =~= pair_bytes(pairs[0]) + join_rest(
            emitted_prefix(pairs.drop_first(), n - 1),
        ));
    }
}

/// A comma before `rest` when `rest` is not empty.
pub open spec fn join_rest(rest: Seq<u8>) -> Seq<u8> {
    if rest.len() == 0 {
        rest
    } else {
        seq![44u8] + rest
    }
}

/// JSON insignificant whitespace.
pub open spec fn is_ws(c: u8) -> bool {
    c == 32 || c == 9 || c == 10 || c == 13
}

/// The first index at or after `i` holding a byte that is not JSON
/// whitespace.
pub open spec fn skip_ws(s: Seq<u8>, i: int) -> int
    decreases s.len() - i,
{
    if i < s.len() && is_ws(s[i]) {
        skip_ws(s, i + 1)
    } else {
        i
    }
}

/// Parses a quoted string's body from index `i` (just after the opening
/// quote), unescaping as it goes; returns the content and the index just
/// after the closing quote. `\uXXXX` escapes are accepted for ASCII
/// values only.
pub open spec fn parse_str_body(s: Seq<u8>, i: int, acc: Seq<u8>) -> Option<(Seq<u8>, int)>
    decreases s.len() - i,
{
    if i < 0 || i >= s.len() {
        None
    } else {
        let c = s[i];
        if c == 34 {
            Some((acc, i + 1))
        } else if c == 92 {
            if i + 1 >= s.len() {
                None
            } else {
                let e = s[i + 1];
                if e == 34 {
                    parse_str_body(s, i + 2, acc.push(34))
                } else if e == 92 {
                    parse_str_body(s, i + 2, acc.push(92))
                } else if e == 47 {
                    parse_str_body(s, i + 2, acc.push(47))
                } else if e == 98 {
                    parse_str_body(s, i + 2, acc.push(8))
                } else if e == 102 {
                    parse_str_body(s, i + 2, acc.push(12))
                } else if e == 110 {
                    parse_str_body(s, i + 2, acc.push(10))
                } else if e == 114 {
                    parse_str_body(s, i + 2, acc.push(13))
                } else if e == 116 {
                    parse_str_body(s, i + 2, acc.push(9))
                } else if e == 117 {
                    if i + 5 >= s.len() {
                        None
                    } else if s[i + 2] == 48 && s[i + 3] == 48 && is_hex_digit(s[i + 4])
                        && is_hex_digit(s[i + 5]) && hex_val(s[i + 4]) < 8 {
                        parse_str_body(
                            s,
                            i + 6,
                            acc.push((16 * hex_val(s[i + 4]) + hex_val(s[i + 5])) as u8),
                        )
                    } else {
                        None
                    }
                } else {
                    None
                }
            }
        } else if c < 32 {
            None
        } else {
            parse_str_body(s, i + 1, acc.push(c))
        }
    }
}

/// Parses the pairs of a flat object from the opening quote of a key at
/// `i` through the closing brace and any trailing whitespace.
pub open spec fn parse_pairs(s: Seq<u8>, i: int, acc: Seq<(Seq<u8>, Seq<u8>)>) -> Option<
    Seq<(Seq<u8>, Seq<u8>)>,
>
    decreases s.len() - i,
{
    if i < 0 || i >= s.len() || s[i] != 34 {
        None
    } else {
        match parse_str_body(s, i + 1, Seq::empty()) {
            None => None,
            Some((key, j0)) => {
                let j = skip_ws(s, j0);
                if j >= s.len() || s[j] != 58 {
                    None
                } else {
                    let k = skip_ws(s, j + 1);
                    if k >= s.len() || s[k] != 34 {
                        None
                    } else {
                        match parse_str_body(s, k + 1, Seq::empty()) {
                            None => None,
                            Some((val, m0)) => {
                                let m = skip_ws(s, m0);
                                if m < s.len() && s[m] == 125 {
                                    if skip_ws(s, m + 1) == s.len() {
                                        Some(acc.push((key, val)))
                                    } else {
                                        None
                                    }
                                } else if m < s.len() && s[m] == 44 {
                                    let n = skip_ws(s, m + 1);
                                    if i < n && n <= s.len() {
                                        parse_pairs(s, n, acc.push((key, val)))
                                    } else {
                                        None
                                    }
                                } else {
                                    None
                                }
                            },
                        }
                    }
                }
            },
        }
    }
}

/// Parses a complete flat JSON object of string fields, in writing order.
pub open spec fn parse_obj(s: Seq<u8>) -> Option<Seq<(Seq<u8>, Seq<u8>)>> {
    let i = skip_ws(s, 0);
    if i >= s.len() || s[i] != 123 {
        None
    } else {
        let j = skip_ws(s, i + 1);
        if j < s.len() && s[j] == 125 {
            if skip_ws(s, j + 1) == s.len() {
                Some(Seq::empty())
            } else {
                None
            }
        } else {
            parse_pairs(s, j, Seq::empty())
        }
    }
}

pub(crate) fn skip_ws_x(s: &[u8], i: usize) -> (r: usize)
    requires
        i <= s@.len(),
    ensures
        r == skip_ws(s@, i as int),
        i <= r <= s@.len(),
{
    let mut j = i;
    while j < s.len() && (s[j] == 32 || s[j] == 9 || s[j] == 10 || s[j] == 13)
        invariant
            i <= j <= s@.len(),
            skip_ws(s@, i as int) == skip_ws(s@, j as int),
        decreases s@.len() - j,
    {
        j = j + 1;
    }
    j
}

pub(crate) fn parse_str_body_x(s: &[u8], start: usize) -> (r: Option<(Vec<u8>, usize)>)
    requires
        start <= s@.len(),
    ensures
        r matches Some((v, p)) ==> parse_str_body(s@, start as int, Seq::empty()) == Some(
            (v@, p as int),
        ) && start < p <= s@.len(),
        r is None ==> parse_str_body(s@, start as int, Seq::empty()) is None,
{
    let mut i = start;
    let mut acc: Vec<u8> = Vec::new();
    loop
        invariant
            start <= i <= s@.len(),
            parse_str_body(s@, start as int, Seq::empty()) == parse_str_body(s@, i as int, acc@),
        decreases s@.len() - i,
    {
        if i >= s.len() {
            return None;
        }
        let c = s[i];
        if c == 34 {
            return Some((acc, i + 1));
        } else if c == 92 {
            if i + 1 >= s.len() {
                return None;
            }
            let e = s[i + 1];
            if e == 34 {
                acc.push(34);
                i = i + 2;
            } else if e == 92 {
                acc.push(92);
                i = i + 2;
            } else if e == 47 {
                acc.push(47);
                i = i + 2;
            } else if e == 98 {
                acc.push(8);
                i = i + 2;
            } else if e == 102 {
                acc.push(12);
                i = i + 2;
            } else if e == 110 {
                acc.push(10);
                i = i + 2;
            } else if e == 114 {
                acc.push(13);
                i = i + 2;
            } else if e == 116 {
                acc.push(9);
                i = i + 2;
            } else if e == 117 {
                if s.len() - i <= 5 {
                    return None;
                }
                if !(s[i + 2] == 48 && s[i + 3] == 48) {
                    return None;
                }
                let d3 = match crate::hexcode::hex_decode_digit(s[i + 4]) {
                    Some(v) => v,
                    None => {
                        return None;
                    },
                };
                let d4 = match crate::hexcode::hex_decode_digit(s[i + 5]) {
                    Some(v) => v,
                    None => {
                        return None;
                    },
                };
                if d3 >= 8 {
                    return None;
                }
                acc.push(16 * d3 + d4);
                i = i + 6;
            } else {
                return None;
            }
        } else if c < 32 {
            return None;
        } else {
            acc.push(c);
            i = i + 1;
        }
    }
}

/// Reads a flat JSON object of string fields; `None` where the bytes do
/// not fit that shape.
pub fn parse_obj_x(s: &[u8]) -> (r: Option<Vec<(Vec<u8>, Vec<u8>)>>)
    ensures
        r matches Some(v) ==> parse_obj(s@) == Some(pairs_view(v@)),
        r is None ==> parse_obj(s@) is None,
{
    let i = skip_ws_x(s, 0);
    if i >= s.len() || s[i] != 123 {
        return None;
    }
    let j = skip_ws_x(s, i + 1);
    if j < s.len() && s[j] == 125 {
        if skip_ws_x(s, j + 1) == s.len() {
            let empty: Vec<(Vec<u8>, Vec<u8>)> = Vec::new();
            proof {
                assert(pairs_view(Seq::<(Vec<u8>, Vec<u8>)>::empty()) =~= Seq::<
                    (Seq<u8>, Seq<u8>),
                >::empty());
            }
            return Some(empty);
        } else {
            return None;
        }
    }
    let mut pos = j;
    let mut acc: Vec<(Vec<u8>, Vec<u8>)> = Vec::new();
    proof {
        assert(pairs_view(acc@) =~= Seq::<(Seq<u8>, Seq<u8>)>::empty());
        assert(parse_obj(s@) == parse_pairs(s@, j as int, Seq::empty()));
    }
    loop
        invariant
            pos <= s@.len(),
            parse_obj(s@) == parse_pairs(s@, pos as int, pairs_view(acc@)),
        decreases s@.len() - pos,
    {
        if pos >= s.len() || s[pos] != 34 {
            return None;
        }
        let (key, j0) = match parse_str_body_x(s, pos + 1) {
            Some(kv) => kv,
            None => {
                return None;
            },
        };
        let jw = skip_ws_x(s, j0);
        if jw >= s.len() || s[jw] != 58 {
            return None;
        }
        let kw = skip_ws_x(s, jw + 1);
        if kw >= s.len() || s[kw] != 34 {
            return None;
        }
        let (val, m0) = match parse_str_body_x(s, kw + 1) {
            Some(vv) => vv,
            None => {
                return None;
            },
        };
        let mw = skip_ws_x(s, m0);
        let ghost old_acc = acc@;
        acc.push((key, val));
        proof {
            assert(pairs_view(acc@) =~= pairs_view(old_acc).push((acc@.last().0@, acc@.last().1@)));
        }
        if mw < s.len() && s[mw] == 125 {
            if skip_ws_x(s, mw + 1) == s.len() {
                return Some(acc);
            } else {
                return None;
            }
        } else if mw < s.len() && s[mw] == 44 {
            let n = skip_ws_x(s, mw + 1);
            if pos < n && n <= s.len() {
                pos = n;
            } else {
                return None;
            }
        } else {
            return None;
        }
    }
}

proof fn lemma_sub_index(input: Seq<u8>, i: int, x: Seq<u8>, k: int)
    requires
        0 <= i,
        i + x.len() <= input.len(),
        input.subrange(i, i + x.len() as int) == x,
        0 <= k < x.len(),
    ensures
        input[i + k] == x[k],
{
    assert(input.subrange(i, i + x.len() as int)[k] == input[i + k]);
}

/// Parsing a string body over the escape of `s` followed by a closing
/// quote recovers `s` and stops just after the quote.
proof fn lemma_parse_escaped(s: Seq<u8>, input: Seq<u8>, i: int, acc: Seq<u8>)
    requires
        0 <= i,
        i + json_escaped(s).len() + 1 <= input.len(),
        input.subrange(i, i + json_escaped(s).len() as int) == json_escaped(s),
        input[i + json_escaped(s).len()] == 34,
    ensures
        parse_str_body(input, i, acc) == Some((acc + s, i + json_escaped(s).len() + 1)),
    decreases s.len(),
{
    let es = json_escaped(s);
    let tl = es.len() as int;
    if s.len() == 0 {
        assert(input[i] == 34);
        assert(acc + s =~= acc);
    } else {
        let c = s[0];
        let e = esc_byte(c);
        let rest = s.drop_first();
        let erest = json_escaped(rest);
        let el = e.len() as int;
        assert(es == e + erest);
        assert forall|k: int| 0 <= k < el implies input[i + k] == e[k] by {
            lemma_sub_index(input, i, es, k);
            assert(es[k] == e[k]);
        }
        assert(input[i + 0] == e[0]);
        assert(input.subrange(i + el, i + el + erest.len() as int) =~= erest) by {
            assert forall|k: int| 0 <= k < erest.len() implies input[i + el + k] == erest[k] by {
                lemma_sub_index(input, i, es, el + k);
                assert(es[el + k] == erest[k]);
            }
        }
        assert(input[i + el + erest.len()] == 34);
        if c == 34 {
            lemma_parse_escaped(rest, input, i + el, acc.push(34));
        } else if c == 92 {
            lemma_parse_escaped(rest, input, i + el, acc.push(92));
        } else if c == 8 || c == 9 || c == 10 || c == 12 || c == 13 {
            lemma_parse_escaped(rest, input, i + el, acc.push(c));
        } else if c < 32 {
            assert(input[i] == 92 && input[i + 1] == 117 && input[i + 2] == 48 && input[i + 3]
                == 48);
            assert(input[i + 4] == hex_digit_of((c / 16) as u8));
            assert(input[i + 5] == hex_digit_of((c % 16) as u8));
            assert(is_hex_digit(input[i + 4]) && hex_val(input[i + 4]) == c / 16);
            assert(is_hex_digit(input[i + 5]) && hex_val(input[i + 5]) == c % 16);
            assert(hex_val(input[i + 4]) < 8);
            assert(16 * hex_val(input[i + 4]) + hex_val(input[i + 5]) == c);
            lemma_parse_escaped(rest, input, i + el, acc.push(c));
        } else {
            assert(input[i] == c);
            lemma_parse_escaped(rest, input, i + el, acc.push(c));
        }
        assert(acc.push(c) + rest =~= acc + s);
    }
}

/// Parsing the pairs of a canonical emission, from the first key through
/// the closing brace at the very end of the input, appends the pairs.
proof fn lemma_parse_pairs_emitted(
    pairs: Seq<(Seq<u8>, Seq<u8>)>,
    input: Seq<u8>,
    i: int,
    acc: Seq<(Seq<u8>, Seq<u8>)>,
)
    requires
        pairs.len() > 0,
        0 <= i,
        i + obj_inner(pairs).len() + 1 == input.len(),
        input.subrange(i, i + obj_inner(pairs).len() as int) == obj_inner(pairs),
        input[i + obj_inner(pairs).len()] == 125,
    ensures
        parse_pairs(input, i, acc) == Some(acc + pairs),
    decreases pairs.len(),
{
    let inner = obj_inner(pairs);
    let p0 = pairs[0];
    let pb = pair_bytes(p0);
    let ek = json_escaped(p0.0);
    let ev = json_escaped(p0.1);
    let ekl = ek.len() as int;
    let evl = ev.len() as int;
    assert(pb.len() == 5 + ekl + evl);
    assert forall|k: int| 0 <= k < pb.len() implies input[i + k] == pb[k] by {
        lemma_sub_index(input, i, inner, k);
        if pairs.len() > 1 {
            assert(inner[k] == pb[k]);
        }
    }
    assert(input[i + 0] == pb[0]);
    assert(pb[0] == 34);
    assert(input[i] == 34);
    assert(input.subrange(i + 1, i + 1 + ekl) =~= ek) by {
        assert forall|k: int| 0 <= k < ekl implies input[i + 1 + k] == ek[k] by {
            assert(input[i + (1 + k)] == pb[1 + k]);
            assert(pb[1 + k] == ek[k]);
        }
    }
    assert(input[i + 1 + ekl] == pb[1 + ekl]);
    assert(pb[1 + ekl] == 34);
    lemma_parse_escaped(p0.0, input, i + 1, Seq::empty());
    assert(parse_str_body(input, i + 1, Seq::empty()) == Some(
        (Seq::empty() + p0.0, i + 2 + ekl),
    ));
    assert(Seq::empty() + p0.0 =~= p0.0);
    let j0 = i + 2 + ekl;
    assert(input[j0] == pb[2 + ekl] && pb[2 + ekl] == 58);
    assert(skip_ws(input, j0) == j0);
    assert(input[j0 + 1] == pb[3 + ekl] && pb[3 + ekl] == 34);
    assert(skip_ws(input, j0 + 1) == j0 + 1);
    let vs = j0 + 2;
    assert(input.subrange(vs, vs + evl) =~= ev) by {
        assert forall|k: int| 0 <= k < evl implies input[vs + k] == ev[k] by {
            assert(input[i + (4 + ekl + k)] == pb[4 + ekl + k]);
            assert(pb[4 + ekl + k] == ev[k]);
        }
    }
    assert(input[vs + evl] == pb[4 + ekl + evl] && pb[4 + ekl + evl] == 34);
    lemma_parse_escaped(p0.1, input, vs, Seq::empty());
    assert(Seq::empty() + p0.1 =~= p0.1);
    let m0 = vs + evl + 1;
    assert(m0 == i + pb.len());
    if pairs.len() == 1 {
        assert(inner == pb);
        assert(input[m0] == 125);
        assert(skip_ws(input, m0) == m0);
        assert(m0 + 1 == input.len());
        assert(skip_ws(input, m0 + 1) == input.len());
        assert(acc.push((p0.0, p0.1)) =~= acc + pairs);
        assert(parse_pairs(input, i, acc) == Some(acc.push((p0.0, p0.1))));
    } else {
        let rest = pairs.drop_first();
        let rinner = obj_inner(rest);
        assert(inner == pb + seq![44u8] + rinner);
        assert(input[m0] == inner[pb.len() as int]) by {
            lemma_sub_index(input, i, inner, pb.len() as int);
        }
        assert(inner[pb.len() as int] == 44);
        assert(skip_ws(input, m0) == m0);
        let n = m0 + 1;
        assert(input.subrange(n, n + rinner.len() as int) =~= rinner) by {
            assert forall|k: int| 0 <= k < rinner.len() implies input[n + k] == rinner[k] by {
                lemma_sub_index(input, i, inner, pb.len() + 1 + k);
                assert(inner[pb.len() + 1 + k] == rinner[k]);
            }
        }
        assert(rest.len() > 0);
        assert(rinner[0] == pair_bytes(rest[0])[0]);
        assert(pair_bytes(rest[0])[0] == 34);
        assert(input[n] == rinner[0]) by {
            lemma_sub_index(input, n, rinner, 0);
        }
        assert(skip_ws(input, n) == n);
        assert(input[n + rinner.len()] == 125);
        lemma_parse_pairs_emitted(rest, input, n, acc.push((p0.0, p0.1)));
        assert(acc.push((p0.0, p0.1)) + rest =~= acc + pairs);
        assert(i < n && n <= input.len());
        assert(parse_pairs(input, i, acc) == Some(acc + pairs));
    }
}

/// Reading back a canonical emission gives exactly the written pairs.
pub proof fn lemma_obj_round_trip(pairs: Seq<(Seq<u8>, Seq<u8>)>)
    ensures
        parse_obj(obj_bytes(pairs)) == Some(pairs),
{
    let input = obj_bytes(pairs);
    let inner = obj_inner(pairs);
    assert(input[0] == 123);
    assert(!is_ws(123u8));
    assert(skip_ws(input, 0) == 0);
    if pairs.len() == 0 {
        assert(input =~= seq![123u8, 125u8]);
        assert(input[1] == 125);
        assert(skip_ws(input, 1) == 1);
        assert(skip_ws(input, 2) == 2);
    } else {
        assert(input[1] == inner[0]);
        assert(inner[0] == pair_bytes(pairs[0])[0]);
        assert(pair_bytes(pairs[0])[0] == 34);
        assert(skip_ws(input, 1) == 1);
        assert(input.subrange(1, 1 + inner.len() as int) =~= inner);
        assert(input[1 + inner.len() as int] == 125);
        lemma_parse_pairs_emitted(pairs, input, 1, Seq::empty());
        assert(Seq::empty() + pairs =~= pairs);
    }
}

/// No byte of an emitted object is a line feed, so a ledger line broken
/// at line feeds holds one whole object.
pub open spec fn no_newline(s: Seq<u8>) -> bool {
    forall|i: int| 0 <= i < s.len() ==> s[i] != 10
}

proof fn lemma_escaped_no_newline(s: Seq<u8>)
    ensures
        no_newline(json_escaped(s)),
    decreases s.len(),
{
    if s.len() == 0 {
    } else {
        lemma_escaped_no_newline(s.drop_first());
        let c = s[0];
        assert forall|k: int| 0 <= k < esc_byte(c).len() implies esc_byte(c)[k] != 10 by {
            if !(c == 34 || c == 92 || c == 8 || c == 9 || c == 10 || c == 12 || c == 13) && c
                < 32 {
                assert(esc_byte(c)[4] == hex_digit_of((c / 16) as u8));
                assert(esc_byte(c)[5] == hex_digit_of((c % 16) as u8));
            }
        }
        assert forall|k: int| 0 <= k < json_escaped(s).len() implies json_escaped(s)[k] != 10 by {
            if k < esc_byte(c).len() {
                assert(json_escaped(s)[k] == esc_byte(c)[k]);
            } else {
                assert(json_escaped(s)[k] == json_escaped(s.drop_first())[k - esc_byte(c).len()]);
            }
        }
    }
}

proof fn lemma_pair_no_newline(p: (Seq<u8>, Seq<u8>))
    ensures
        no_newline(pair_bytes(p)),
{
    lemma_escaped_no_newline(p.0);
    lemma_escaped_no_newline(p.1);
    let ek = json_escaped(p.0);
    let ev = json_escaped(p.1);
    assert forall|k: int| 0 <= k < pair_bytes(p).len() implies pair_bytes(p)[k] != 10 by {
        let pb = pair_bytes(p);
        if 1 <= k < 1 + ek.len() {
            assert(pb[k] == ek[k - 1]);
        } else if 4 + ek.len() <= k < 4 + ek.len() + ev.len() {
            assert(pb[k] == ev[k - 4 - ek.len()]);
        }
    }
}

/// An emitted object never contains a raw line feed.
pub proof fn lemma_obj_bytes_no_newline(pairs: Seq<(Seq<u8>, Seq<u8>)>)
    ensures
        no_newline(obj_bytes(pairs)),
    decreases pairs.len(),
{
    if pairs.len() == 0 {
    } else if pairs.len() == 1 {
        lemma_pair_no_newline(pairs[0]);
    } else {
        lemma_obj_bytes_no_newline(pairs.drop_first());
        lemma_pair_no_newline(pairs[0]);
        let pb = pair_bytes(pairs[0]);
        let rinner = obj_inner(pairs.drop_first());
        assert forall|k: int| 0 <= k < obj_inner(pairs).len() implies obj_inner(pairs)[k] != 10 by {
            if k < pb.len() {
                assert(obj_inner(pairs)[k] == pb[k]);
            } else if k == pb.len() {
                assert(obj_inner(pairs)[k] == 44);
            } else {
                assert(obj_inner(pairs)[k] == rinner[k - pb.len() - 1]);
                assert(obj_bytes(pairs.drop_first())[k - pb.len() - 1 + 1] == rinner[k - pb.len()
                    - 1]);
            }
        }
    }
}

} // verus!
