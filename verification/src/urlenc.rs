//! Decoding of the provider's URL-shaped text: percent-escapes,
//! query-string key/value pairs, literal replacement, and ASCII
//! lowercasing.
//!
//! The stream-map blob and the metadata page are query-string-shaped, so
//! every field the library reads out of them passes through these decoders.

use vstd::prelude::*;
use crate::scan::{matches_at, match_at, find_from, index_of_from, push_all, subvec, bytes_eq};

verus! {

/// An ASCII hexadecimal digit.
pub open spec fn is_hex_byte(b: u8) -> bool {
    (48 <= b && b <= 57) || (65 <= b && b <= 70) || (97 <= b && b <= 102)
}

/// The value of a hexadecimal digit byte.
pub open spec fn hex_val(b: u8) -> int {
    if 48 <= b && b <= 57 {
        b - 48
    } else if 65 <= b && b <= 70 {
        b - 55
    } else {
        b - 87
    }
}

/// Executable test for [`is_hex_byte`].
pub fn hex_byte(b: u8) -> (r: bool)
    ensures
        r == is_hex_byte(b),
{
    (48 <= b && b <= 57) || (65 <= b && b <= 70) || (97 <= b && b <= 102)
}

/// Computes [`hex_val`] for a hexadecimal digit byte.
pub fn hex_digit_val(b: u8) -> (r: u8)
    requires
        is_hex_byte(b),
    ensures
        r == hex_val(b),
{
    if 48 <= b && b <= 57 {
        b - 48
    } else if 65 <= b && b <= 70 {
        b - 55
    } else {
        b - 87
    }
}

/// Percent-decoding of `s` from position `i` on: `%XY` with two hex digits
/// becomes the byte `16 * X + Y`; with `plus`, `+` becomes a space; every
/// other byte is kept.  An incomplete or non-hex escape is kept verbatim.
pub open spec fn pct_decode_from(s: Seq<u8>, i: int, plus: bool) -> Seq<u8>
    decreases s.len() - i when 0 <= i <= s.len()
{
    if i >= s.len() {
        Seq::empty()
    } else if s[i] == 37 && i + 2 < s.len() && is_hex_byte(s[i + 1]) && is_hex_byte(s[i + 2]) {
        seq![(hex_val(s[i + 1]) * 16 + hex_val(s[i + 2])) as u8] + pct_decode_from(s, i + 3, plus)
    } else if plus && s[i] == 43 {
        seq![32u8] + pct_decode_from(s, i + 1, plus)
    } else {
        seq![s[i]] + pct_decode_from(s, i + 1, plus)
    }
}

/// Percent-decoding of the whole of `s`.
pub open spec fn pct_decode(s: Seq<u8>, plus: bool) -> Seq<u8> {
    pct_decode_from(s, 0, plus)
}

fn pct_decode_exec(s: &Vec<u8>, plus: bool) -> (r: Vec<u8>)
    ensures
        r@ == pct_decode(s@, plus),
{
    let mut r: Vec<u8> = Vec::new();
    let mut i: usize = 0;
    proof {
        assert(pct_decode(s@, plus) =~= r@ + pct_decode_from(s@, 0, plus));
    }
    while i < s.len()
        invariant
            0 <= i <= s@.len(),
            pct_decode(s@, plus) == r@ + pct_decode_from(s@, i as int, plus),
        decreases s@.len() - i,
    {
        let ghost prev_r = r@;
        let ghost prev_i = i as int;
        if s[i] == 37 && s.len() - i > 2 && hex_byte(s[i + 1]) && hex_byte(s[i + 2]) {
            let hi = hex_digit_val(s[i + 1]);
            let lo = hex_digit_val(s[i + 2]);
            r.push(hi * 16 + lo);
            i += 3;
        } else if plus && s[i] == 43 {
            r.push(32);
            i += 1;
        } else {
            r.push(s[i]);
            i += 1;
        }
        proof {
            assert(prev_r + pct_decode_from(s@, prev_i, plus) =~= r@ + pct_decode_from(
                s@,
                i as int,
                plus,
            ));
        }
    }
    r
}

/// Replaces each percent-escape of `s` with the byte it spells.
pub fn unquote(s: &Vec<u8>) -> (r: Vec<u8>)
    ensures
        r@ == pct_decode(s@, false),
{
    pct_decode_exec(s, false)
}

/// Replaces each percent-escape of `s` with the byte it spells and each
/// `+` with a space, as form-encoded query values spell them.
pub fn unquote_plus(s: &Vec<u8>) -> (r: Vec<u8>)
    ensures
        r@ == pct_decode(s@, true),
{
    pct_decode_exec(s, true)
}

/// An ASCII upper-case letter mapped to its lower-case form; every other
/// byte kept.
pub open spec fn lower_byte(b: u8) -> u8 {
    if 65 <= b && b <= 90 {
        (b + 32) as u8
    } else {
        b
    }
}

/// The whole of `s`, ASCII-lowercased.
pub open spec fn lower_seq(s: Seq<u8>) -> Seq<u8> {
    s.map_values(|b: u8| lower_byte(b))
}

/// ASCII-lowercases `s`.
pub fn to_lower(s: &Vec<u8>) -> (r: Vec<u8>)
    ensures
        r@ == lower_seq(s@),
{
    let mut r: Vec<u8> = Vec::new();
    let mut i: usize = 0;
    while i < s.len()
        invariant
            i <= s@.len(),
            r@.len() == i,
            forall|k: int| 0 <= k < i ==> r@[k] == lower_byte(s@[k]),
        decreases s@.len() - i,
    {
        let b = s[i];
        if 65 <= b && b <= 90 {
            r.push(b + 32);
        } else {
            r.push(b);
        }
        i += 1;
    }
    proof {
        assert(r@ =~= lower_seq(s@));
    }
    r
}

/// `s` from position `i` on, with every occurrence of `pat` replaced by
/// `to`, scanning left to right without overlap.
pub open spec fn replace_from(s: Seq<u8>, i: int, pat: Seq<u8>, to: Seq<u8>) -> Seq<u8>
    decreases s.len() - i when 0 <= i <= s.len() && pat.len() > 0
{
    if i >= s.len() {
        Seq::empty()
    } else if matches_at(s, i, pat) {
        to + replace_from(s, i + pat.len(), pat, to)
    } else {
        seq![s[i]] + replace_from(s, i + 1, pat, to)
    }
}

/// The whole of `s` with every occurrence of `pat` replaced by `to`.
pub open spec fn replace_seq(s: Seq<u8>, pat: Seq<u8>, to: Seq<u8>) -> Seq<u8> {
    replace_from(s, 0, pat, to)
}

/// Replaces every occurrence of `pat` in `s` by `to`, left to right.
pub fn replace(s: &Vec<u8>, pat: &Vec<u8>, to: &Vec<u8>) -> (r: Vec<u8>)
    requires
        pat@.len() > 0,
    ensures
        r@ == replace_seq(s@, pat@, to@),
{
    let mut r: Vec<u8> = Vec::new();
    let mut i: usize = 0;
    proof {
        assert(replace_seq(s@, pat@, to@) =~= r@ + replace_from(s@, 0, pat@, to@));
    }
    while i < s.len()
        invariant
            0 <= i <= s@.len(),
            pat@.len() > 0,
            replace_seq(s@, pat@, to@) == r@ + replace_from(s@, i as int, pat@, to@),
        decreases s@.len() - i,
    {
        let ghost prev_r = r@;
        let ghost prev_i = i as int;
        if match_at(s, i, pat) {
            push_all(&mut r, to);
            i += pat.len();
        } else {
            r.push(s[i]);
            i += 1;
        }
        proof {
            assert(prev_r + replace_from(s@, prev_i, pat@, to@) =~= r@ + replace_from(
                s@,
                i as int,
                pat@,
                to@,
            ));
        }
    }
    r
}

/// The first position of `b` in `s`, or `s.len()` if `b` is absent.
pub open spec fn index_of(s: Seq<u8>, b: u8) -> int
    decreases s.len(),
{
    if s.len() == 0 {
        0
    } else if s[0] == b {
        0
    } else {
        1 + index_of(s.skip(1), b)
    }
}

/// A first occurrence determines [`index_of`]: if nothing before `j` is `b`
/// and `j` holds `b` (or is the end), then `index_of` is `j`.
pub proof fn lemma_index_of_is(s: Seq<u8>, b: u8, j: int)
    requires
        0 <= j <= s.len(),
        forall|k: int| 0 <= k < j ==> s[k] != b,
        j < s.len() ==> s[j] == b,
        j == s.len() ==> forall|k: int| 0 <= k < s.len() ==> s[k] != b,
    ensures
        index_of(s, b) == j,
    decreases s.len(),
{
    if s.len() == 0 {
    } else if s[0] == b {
        assert(j == 0);
    } else {
        assert(j >= 1);
        assert(forall|k: int| 0 <= k < s.len() - 1 ==> s.skip(1)[k] == s[k + 1]);
        lemma_index_of_is(s.skip(1), b, j - 1);
    }
}

/// `s` split on the byte `sep`: the fragments between occurrences of
/// `sep`, in order.  Splitting never yields an empty list — an empty input
/// is one empty fragment.
pub open spec fn split_seq(s: Seq<u8>, sep: u8) -> Seq<Seq<u8>>
    decreases s.len(),
{
    if s.len() == 0 {
        seq![Seq::<u8>::empty()]
    } else if s[0] == sep {
        seq![Seq::<u8>::empty()] + split_seq(s.skip(1), sep)
    } else {
        let rest = split_seq(s.skip(1), sep);
        seq![seq![s[0]] + rest[0]] + rest.skip(1)
    }
}

/// Splitting yields at least one fragment.
pub proof fn lemma_split_len(s: Seq<u8>, sep: u8)
    ensures
        split_seq(s, sep).len() >= 1,
    decreases s.len(),
{
    if s.len() == 0 {
    } else if s[0] == sep {
        lemma_split_len(s.skip(1), sep);
    } else {
        lemma_split_len(s.skip(1), sep);
    }
}

/// On input without the separator, splitting yields the input whole.
pub proof fn lemma_split_no_sep(s: Seq<u8>, sep: u8)
    requires
        forall|k: int| 0 <= k < s.len() ==> s[k] != sep,
    ensures
        split_seq(s, sep) == seq![s],
    decreases s.len(),
{
    if s.len() == 0 {
        assert(split_seq(s, sep) =~~= seq![s]);
    } else {
        assert(forall|k: int| 0 <= k < s.len() - 1 ==> s.skip(1)[k] == s[k + 1]);
        lemma_split_no_sep(s.skip(1), sep);
        lemma_split_len(s.skip(1), sep);
        assert(split_seq(s, sep) =~~= seq![s]);
    }
}

/// Splitting at the first separator: the head fragment is everything
/// before it, and the rest is the split of everything after it.
pub proof fn lemma_split_at_sep(s: Seq<u8>, sep: u8, i: int)
    requires
        0 <= i < s.len(),
        s[i] == sep,
        forall|k: int| 0 <= k < i ==> s[k] != sep,
    ensures
        split_seq(s, sep) == seq![s.take(i)] + split_seq(s.skip(i + 1), sep),
    decreases i,
{
    if i == 0 {
        assert(split_seq(s, sep) =~~= seq![s.take(0)] + split_seq(s.skip(1), sep));
    } else {
        assert(forall|k: int| 0 <= k < s.len() - 1 ==> s.skip(1)[k] == s[k + 1]);
        lemma_split_at_sep(s.skip(1), sep, i - 1);
        lemma_split_len(s.skip(1).skip(i), sep);
        assert(s.skip(1).skip(i) =~= s.skip(i + 1));
        assert(seq![s[0]] + s.skip(1).take(i - 1) =~= s.take(i));
        assert(split_seq(s, sep) =~~= seq![s.take(i)] + split_seq(s.skip(i + 1), sep));
    }
}

/// Splits `s` on the byte `sep`.
pub fn split(s: &Vec<u8>, sep: u8) -> (r: Vec<Vec<u8>>)
    ensures
        r.deep_view() == split_seq(s@, sep),
{
    let n = s.len();
    let mut r: Vec<Vec<u8>> = Vec::new();
    let mut start: usize = 0;
    proof {
        assert(s@.skip(0) =~= s@);
        assert(r.deep_view() + split_seq(s@, sep) =~~= split_seq(s@, sep));
    }
    loop
        invariant
            start <= s@.len(),
            n == s@.len(),
            split_seq(s@, sep) == r.deep_view() + split_seq(s@.skip(start as int), sep),
        decreases s@.len() - start,
    {
        let ghost prev_dv = r.deep_view();
        match index_of_from(s, start, sep) {
            Some(i) => {
                let piece = subvec(s, start, i);
                proof {
                    let u = s@.skip(start as int);
                    assert(forall|k: int|
                        0 <= k < u.len() ==> u[k] == s@[start as int + k]);
                    lemma_split_at_sep(u, sep, i - start);
                    assert(u.take(i - start) =~= piece@);
                    assert(u.skip(i - start + 1) =~= s@.skip(i + 1));
                }
                r.push(piece);
                proof {
                    assert(r.deep_view() =~~= prev_dv + seq![s@.skip(start as int).take(
                        i - start,
                    )]);
                }
                start = i + 1;
            },
            None => {
                let piece = subvec(s, start, s.len());
                proof {
                    let u = s@.skip(start as int);
                    assert(forall|k: int|
                        0 <= k < u.len() ==> u[k] == s@[start as int + k]);
                    lemma_split_no_sep(u, sep);
                    assert(u =~= piece@);
                }
                r.push(piece);
                proof {
                    assert(r.deep_view() =~~= prev_dv + seq![s@.skip(start as int)]);
                }
                return r;
            },
        }
    }
}

/// The capture pattern matches at `i`: the needle, then at least one byte
/// before an occurrence of the closing byte `end`, which must exist.
pub open spec fn capture_match_at(h: Seq<u8>, needle: Seq<u8>, end: u8, i: int) -> bool {
    let start = i + needle.len();
    let c = start + index_of(h.skip(start), end);
    &&& matches_at(h, i, needle)
    &&& c < h.len()
    &&& c > start
}

/// The first position at or after `i` where the capture pattern matches.
pub open spec fn first_capture_pos(h: Seq<u8>, needle: Seq<u8>, end: u8, i: int) -> Option<int>
    decreases h.len() - i when 0 <= i <= h.len()
{
    if i >= h.len() {
        None
    } else if capture_match_at(h, needle, end, i) {
        Some(i)
    } else {
        first_capture_pos(h, needle, end, i + 1)
    }
}

proof fn lemma_first_capture_pos_from(h: Seq<u8>, needle: Seq<u8>, end: u8, lo: int, j: int)
    requires
        0 <= lo <= j <= h.len(),
        forall|k: int| lo <= k < j ==> !capture_match_at(h, needle, end, k),
    ensures
        j < h.len() && capture_match_at(h, needle, end, j) ==> first_capture_pos(h, needle, end, lo)
            == Some(j),
        j == h.len() ==> first_capture_pos(h, needle, end, lo) is None,
    decreases j - lo,
{
    if lo < j {
        lemma_first_capture_pos_from(h, needle, end, lo + 1, j);
    }
}

/// The text between the first matching occurrence of `needle` and the
/// next occurrence of the byte `end`: a nonempty capture that must be
/// closed, at the leftmost position where both hold.
pub open spec fn captured(h: Seq<u8>, needle: Seq<u8>, end: u8) -> Option<Seq<u8>> {
    match first_capture_pos(h, needle, end, 0) {
        Some(i) => {
            let start = i + needle.len();
            let c = start + index_of(h.skip(start), end);
            Some(h.subrange(start, c))
        },
        None => None,
    }
}

/// Finds the first nonempty, closed capture following `needle`.
pub fn find_capture(h: &Vec<u8>, needle: &Vec<u8>, end: u8) -> (r: Option<Vec<u8>>)
    requires
        needle@.len() > 0,
    ensures
        match r {
            Some(v) => captured(h@, needle@, end) == Some(v@),
            None => captured(h@, needle@, end) is None,
        },
{
    let n = h.len();
    let nlen = needle.len();
    let mut from: usize = 0;
    loop
        invariant
            from <= h@.len() + 1,
            n == h@.len(),
            nlen == needle@.len(),
            nlen > 0,
            forall|k: int| 0 <= k < from ==> !capture_match_at(h@, needle@, end, k),
        decreases h@.len() + 1 - from,
    {
        match find_from(h, from, needle) {
            None => {
                proof {
                    assert(forall|k: int| from <= k ==> !matches_at(h@, k, needle@));
                    lemma_first_capture_pos_from(h@, needle@, end, 0, h@.len() as int);
                }
                return None;
            },
            Some(i) => {
                let start = i + nlen;
                let copt = index_of_from(h, start, end);
                proof {
                    let u = h@.skip(start as int);
                    assert(forall|k: int| 0 <= k < u.len() ==> u[k] == h@[start as int + k]);
                    match copt {
                        Some(c) => {
                            lemma_index_of_is(u, end, c - start as int);
                        },
                        None => {
                            lemma_index_of_is(u, end, u.len() as int);
                        },
                    }
                }
                match copt {
                    Some(c) if c > start => {
                        let capture = subvec(h, start, c);
                        proof {
                            assert(capture_match_at(h@, needle@, end, i as int));
                            lemma_first_capture_pos_from(h@, needle@, end, 0, i as int);
                            assert(h@.subrange(start as int, c as int) =~= capture@);
                        }
                        return Some(capture);
                    },
                    _ => {
                        proof {
                            assert(!capture_match_at(h@, needle@, end, i as int));
                        }
                        from = i + 1;
                    },
                }
            },
        }
    }
}

/// A key/value pair read out of one query fragment: the text before the
/// first `=` and the text after it (all of the fragment and an empty value
/// when `=` is absent).
pub open spec fn pair_of(p: Seq<u8>) -> (Seq<u8>, Seq<u8>) {
    let i = index_of(p, 61);
    if i == p.len() {
        (p, Seq::empty())
    } else {
        (p.take(i), p.skip(i + 1))
    }
}

/// [`pair_of`], with key and value form-decoded.
pub open spec fn decoded_pair(p: Seq<u8>) -> (Seq<u8>, Seq<u8>) {
    (pct_decode(pair_of(p).0, true), pct_decode(pair_of(p).1, true))
}

/// All key/value pairs of a query string `s`, decoded, in order.
pub open spec fn decoded_pairs(s: Seq<u8>) -> Seq<(Seq<u8>, Seq<u8>)> {
    split_seq(s, 38).map_values(|p: Seq<u8>| decoded_pair(p))
}

/// The value of the last pair whose key is `key`, if any.
pub open spec fn param_value(pairs: Seq<(Seq<u8>, Seq<u8>)>, key: Seq<u8>) -> Option<Seq<u8>>
    decreases pairs.len(),
{
    if pairs.len() == 0 {
        None
    } else if pairs.last().0 == key {
        Some(pairs.last().1)
    } else {
        param_value(pairs.drop_last(), key)
    }
}

/// The decoded value of `key` in the query string `s`; with several
/// occurrences the last wins, as plain map insertion would have it.
pub open spec fn query_param(s: Seq<u8>, key: Seq<u8>) -> Option<Seq<u8>> {
    param_value(decoded_pairs(s), key)
}

/// Looks `key` up in the query string `s` and returns its decoded value.
pub fn get_param(s: &Vec<u8>, key: &Vec<u8>) -> (r: Option<Vec<u8>>)
    ensures
        match r {
            Some(v) => query_param(s@, key@) == Some(v@),
            None => query_param(s@, key@) is None,
        },
{
    let pieces = split(s, 38);
    let ghost dp = decoded_pairs(s@);
    let mut cur: Option<Vec<u8>> = None;
    let mut i: usize = 0;
    proof {
        assert(pieces.deep_view().len() == dp.len());
    }
    while i < pieces.len()
        invariant
            i <= pieces@.len(),
            pieces.deep_view() == split_seq(s@, 38),
            dp == decoded_pairs(s@),
            dp.len() == pieces@.len(),
            match cur {
                Some(v) => param_value(dp.take(i as int), key@) == Some(v@),
                None => param_value(dp.take(i as int), key@) is None,
            },
        decreases pieces@.len() - i,
    {
        let piece = &pieces[i];
        proof {
            assert(pieces.deep_view()[i as int] == piece.deep_view());
            assert(piece.deep_view() =~= piece@);
        }
        let plen = piece.len();
        let (kraw, vraw) = match index_of_from(piece, 0, 61) {
            Some(j) => {
                proof {
                    lemma_index_of_is(piece@, 61, j as int);
                }
                (subvec(piece, 0, j), subvec(piece, j + 1, plen))
            },
            None => {
                proof {
                    lemma_index_of_is(piece@, 61, piece@.len() as int);
                }
                (subvec(piece, 0, piece.len()), Vec::new())
            },
        };
        proof {
            assert(pair_of(piece@).0 =~= kraw@);
            assert(pair_of(piece@).1 =~= vraw@);
        }
        let k = unquote_plus(&kraw);
        let v = unquote_plus(&vraw);
        proof {
            assert(dp[i as int] == decoded_pair(split_seq(s@, 38)[i as int]));
            assert(dp[i as int] == (k@, v@));
        }
        let ghost prev_cur_spec = match cur {
            Some(ref w) => Some(w@),
            None => None,
        };
        if bytes_eq(&k, key) {
            cur = Some(v);
        }
        i += 1;
        proof {
            assert(dp.take(i as int).drop_last() =~= dp.take(i as int - 1));
            assert(dp.take(i as int).last() == dp[i as int - 1]);
        }
    }
    proof {
        assert(dp.take(dp.len() as int) =~= dp);
    }
    cur
}

} // verus!
