//! Mining the player script for the descrambling routine.
//!
//! The provider's metadata page names a descrambling function through a
//! fixed "signature comparison fails, so call `F`" idiom; `F`'s body is
//! located inside the player script, split into statements, and each
//! statement is classified against structural fingerprints of the three
//! primitive transforms.  Classification is memoized per call: once an
//! identifier's kind is known, later statements reuse it.

use vstd::prelude::*;
use crate::crypt::{CryptOp, stmt_arg};
use crate::error::{Error, ErrorKind};
use crate::scan::{
    bytes_of_chars, is_word_byte, lit, matches_at, match_at, find_from, index_of_from, subvec,
    word_byte, word_run, word_run_end,
};
use crate::urlenc::{
    index_of, lemma_index_of_is, split, split_seq, lemma_split_len, pct_decode, replace_seq,
    captured, find_capture,
};

verus! {

/// The byte spelling of the `.sig||` idiom that introduces the call of the
/// descrambling function.
pub open spec fn sig_idiom() -> Seq<u8> {
    bytes_of_chars(".sig||"@)
}

/// The function name invoked right after an occurrence of the idiom
/// ending at `p`: an optional qualifier (a word run and a dot) and then
/// the name itself, immediately followed by an opening parenthesis.
pub open spec fn sig_name_at(js: Seq<u8>, p: int) -> Option<Seq<u8>> {
    let j1 = word_run_end(js, p);
    if j1 <= p {
        None
    } else if j1 < js.len() && js[j1] == 46 {
        let j2 = word_run_end(js, j1 + 1);
        if j2 > j1 + 1 && j2 < js.len() && js[j2] == 40 {
            Some(js.subrange(j1 + 1, j2))
        } else {
            None
        }
    } else if j1 < js.len() && js[j1] == 40 {
        Some(js.subrange(p, j1))
    } else {
        None
    }
}

/// The idiom occurs at `i` and a function name follows it.
pub open spec fn sig_match_at(js: Seq<u8>, i: int) -> bool {
    &&& matches_at(js, i, sig_idiom())
    &&& sig_name_at(js, i + 6) is Some
}

/// The first position at or after `i` where the idiom matches.
pub open spec fn first_sig_pos(js: Seq<u8>, i: int) -> Option<int>
    decreases js.len() - i when 0 <= i <= js.len()
{
    if i >= js.len() {
        None
    } else if sig_match_at(js, i) {
        Some(i)
    } else {
        first_sig_pos(js, i + 1)
    }
}

proof fn lemma_first_sig_pos_from(js: Seq<u8>, lo: int, j: int)
    requires
        0 <= lo <= j <= js.len(),
        forall|k: int| lo <= k < j ==> !sig_match_at(js, k),
    ensures
        j < js.len() && sig_match_at(js, j) ==> first_sig_pos(js, lo) == Some(j),
        j == js.len() ==> first_sig_pos(js, lo) is None,
    decreases j - lo,
{
    if lo < j {
        lemma_first_sig_pos_from(js, lo + 1, j);
    }
}

/// The name of the descrambling function the page invokes, read at the
/// first occurrence of the idiom that a name follows.
pub open spec fn decrypt_fn_name(js: Seq<u8>) -> Option<Seq<u8>> {
    match first_sig_pos(js, 0) {
        Some(i) => sig_name_at(js, i + 6),
        None => None,
    }
}

/// Finds the descrambling function's name in the page or script text.
/// Fails with `DescramblerNotFound` when the idiom never matches; there
/// is no fallback path.
pub fn decrypt_function(js: &Vec<u8>) -> (r: Result<Vec<u8>, Error>)
    ensures
        match r {
            Ok(name) => decrypt_fn_name(js@) == Some(name@),
            Err(e) => e.kind == ErrorKind::DescramblerNotFound && decrypt_fn_name(js@) is None,
        },
{
    let idiom = lit(".sig||");
    let n = js.len();
    proof {
        reveal_strlit(".sig||");
    }
    let mut from: usize = 0;
    loop
        invariant
            from <= js@.len() + 1,
            n == js@.len(),
            sig_idiom().len() == 6,
            idiom@ == sig_idiom(),
            forall|k: int| 0 <= k < from ==> !sig_match_at(js@, k),
        decreases js@.len() + 1 - from,
    {
        match find_from(js, from, &idiom) {
            None => {
                proof {
                    assert(forall|k: int| from <= k ==> !matches_at(js@, k, sig_idiom()));
                    lemma_first_sig_pos_from(js@, 0, js@.len() as int);
                }
                return Err(
                    Error::new(ErrorKind::DescramblerNotFound, "unable to find decrypt function"),
                );
            },
            Some(i) => {
                let p = i + 6;
                let j1 = word_run(js, p);
                let mut name: Option<Vec<u8>> = None;
                if j1 > p {
                    if j1 < js.len() && js[j1] == 46 {
                        let j2 = word_run(js, j1 + 1);
                        if j2 > j1 + 1 && j2 < js.len() && js[j2] == 40 {
                            name = Some(subvec(js, j1 + 1, j2));
                        }
                    } else if j1 < js.len() && js[j1] == 40 {
                        name = Some(subvec(js, p, j1));
                    }
                }
                match name {
                    Some(n) => {
                        proof {
                            assert(sig_name_at(js@, p as int) == Some(n@));
                            assert(sig_match_at(js@, i as int));
                            lemma_first_sig_pos_from(js@, 0, i as int);
                        }
                        return Ok(n);
                    },
                    None => {
                        proof {
                            assert(sig_name_at(js@, p as int) is None);
                            assert(!sig_match_at(js@, i as int));
                        }
                        from = i + 1;
                    },
                }
            },
        }
    }
}

/// The bytes a function definition opens with: the name and `=function(`.
pub open spec fn func_head(name: Seq<u8>) -> Seq<u8> {
    name + bytes_of_chars("=function("@)
}

/// The function definition pattern matches at `i`: the name, `=function(`,
/// a single word-byte parameter, `){`, and a closing brace later on.
pub open spec fn body_match_at(js: Seq<u8>, name: Seq<u8>, i: int) -> bool {
    let q = i + name.len() + 10;
    &&& matches_at(js, i, func_head(name))
    &&& q + 2 < js.len()
    &&& is_word_byte(js[q])
    &&& js[q + 1] == 41
    &&& js[q + 2] == 123
    &&& exists|c: int| q + 3 <= c < js.len() && js[c] == 125
}

/// The first position at or after `i` where the definition pattern
/// matches.
pub open spec fn first_body_pos(js: Seq<u8>, name: Seq<u8>, i: int) -> Option<int>
    decreases js.len() - i when 0 <= i <= js.len()
{
    if i >= js.len() {
        None
    } else if body_match_at(js, name, i) {
        Some(i)
    } else {
        first_body_pos(js, name, i + 1)
    }
}

proof fn lemma_first_body_pos_from(js: Seq<u8>, name: Seq<u8>, lo: int, j: int)
    requires
        0 <= lo <= j <= js.len(),
        forall|k: int| lo <= k < j ==> !body_match_at(js, name, k),
    ensures
        j < js.len() && body_match_at(js, name, j) ==> first_body_pos(js, name, lo) == Some(j),
        j == js.len() ==> first_body_pos(js, name, lo) is None,
    decreases j - lo,
{
    if lo < j {
        lemma_first_body_pos_from(js, name, lo + 1, j);
    }
}

/// The descrambling function's captured body: everything between `){` at
/// its first definition and the first closing brace after it.
pub open spec fn function_body(js: Seq<u8>, name: Seq<u8>) -> Option<Seq<u8>> {
    match first_body_pos(js, name, 0) {
        Some(i) => {
            let q = i + name.len() + 10;
            let c = q + 3 + index_of(js.skip(q + 3), 125);
            Some(js.subrange(q + 3, c))
        },
        None => None,
    }
}

/// Captures the descrambling function's body out of the script.  Fails
/// with `DescramblerNotFound` when no definition of `name` matches the
/// pattern.
pub fn capture_body(js: &Vec<u8>, name: &Vec<u8>) -> (r: Result<Vec<u8>, Error>)
    ensures
        match r {
            Ok(b) => function_body(js@, name@) == Some(b@),
            Err(e) => e.kind == ErrorKind::DescramblerNotFound && function_body(js@, name@)
                is None,
        },
{
    let mut needle = subvec(name, 0, name.len());
    let tail = lit("=function(");
    crate::scan::push_all(&mut needle, &tail);
    let n = js.len();
    proof {
        reveal_strlit("=function(");
        assert(name@.subrange(0, name@.len() as int) =~= name@);
        assert(needle@ == func_head(name@));
    }
    let mut from: usize = 0;
    loop
        invariant
            from <= js@.len() + 1,
            n == js@.len(),
            needle@ == func_head(name@),
            needle@.len() == name@.len() + 10,
            forall|k: int| 0 <= k < from ==> !body_match_at(js@, name@, k),
        decreases js@.len() + 1 - from,
    {
        match find_from(js, from, &needle) {
            None => {
                proof {
                    assert(forall|k: int| from <= k ==> !matches_at(js@, k, func_head(name@)));
                    lemma_first_body_pos_from(js@, name@, 0, js@.len() as int);
                }
                return Err(
                    Error::new(
                        ErrorKind::DescramblerNotFound,
                        "unable to capture decrypt function",
                    ),
                );
            },
            Some(i) => {
                let q = i + needle.len();
                if n - q > 2 && word_byte(js[q]) && js[q + 1] == 41 && js[q + 2] == 123 {
                    match index_of_from(js, q + 3, 125) {
                        Some(c) => {
                            let body = subvec(js, q + 3, c);
                            proof {
                                let u = js@.skip(q as int + 3);
                                assert(forall|k: int|
                                    0 <= k < u.len() ==> u[k] == js@[q as int + 3 + k]);
                                lemma_index_of_is(u, 125, c - (q as int + 3));
                                assert(body_match_at(js@, name@, i as int));
                                lemma_first_body_pos_from(js@, name@, 0, i as int);
                                assert(js@.subrange(q as int + 3, c as int) =~= body@);
                            }
                            return Ok(body);
                        },
                        None => {
                            proof {
                                assert(!body_match_at(js@, name@, i as int));
                            }
                            from = i + 1;
                        },
                    }
                } else {
                    proof {
                        assert(!body_match_at(js@, name@, i as int));
                    }
                    from = i + 1;
                }
            },
        }
    }
}

/// The first word run of `s`, from position `i` on, that an opening
/// parenthesis immediately follows: the identifier of the helper a
/// statement invokes.  Empty when the statement invokes none.
pub open spec fn id_of_from(s: Seq<u8>, i: int) -> Seq<u8>
    decreases s.len() - i when 0 <= i <= s.len()
{
    if i >= s.len() {
        Seq::empty()
    } else if is_word_byte(s[i]) {
        let j = word_run_end(s, i);
        if j < s.len() && s[j] == 40 {
            s.subrange(i, j)
        } else {
            id_of_from(s, i + 1)
        }
    } else {
        id_of_from(s, i + 1)
    }
}

/// The identifier of the helper the statement invokes.
pub open spec fn id_of(s: Seq<u8>) -> Seq<u8> {
    id_of_from(s, 0)
}

/// Reads the invoked helper's identifier out of a statement: the first
/// word run an opening parenthesis immediately follows, or nothing.
pub fn get_id(s: &Vec<u8>) -> (r: Vec<u8>)
    ensures
        r@ == id_of(s@),
{
    let mut i: usize = 0;
    while i < s.len()
        invariant
            i <= s@.len(),
            id_of(s@) == id_of_from(s@, i as int),
        decreases s@.len() - i,
    {
        if word_byte(s[i]) {
            let j = word_run(s, i);
            if j < s.len() && s[j] == 40 {
                return subvec(s, i, j);
            }
        }
        i += 1;
    }
    Vec::new()
}

/// The bytes `:function(` that open a helper's definition.
pub open spec fn colon_func() -> Seq<u8> {
    bytes_of_chars(":function("@)
}

/// A word run at `p` that a dot immediately follows: a dotted member
/// access.
pub open spec fn dotted_at(js: Seq<u8>, p: int) -> bool {
    &&& 0 <= p <= js.len()
    &&& word_run_end(js, p) > p
    &&& word_run_end(js, p) < js.len()
    &&& js[word_run_end(js, p)] == 46
}

/// Reverse fingerprint at `i`: `id` is defined here as a function of a
/// single parameter — `id:function(`, one word run, `)`.
pub open spec fn reverse_sig_at(js: Seq<u8>, id: Seq<u8>, i: int) -> bool {
    let q = i + id.len() + 10;
    let j1 = word_run_end(js, q);
    &&& matches_at(js, i, id + colon_func())
    &&& j1 > q
    &&& j1 < js.len()
    &&& js[j1] == 41
}

/// Swap fingerprint at `i`: `id` is defined here as a function of two
/// parameters whose body opens by declaring a local variable —
/// `id:function(` two word runs and `)`, the body opener, then `var`.
pub open spec fn swap_sig_at(js: Seq<u8>, id: Seq<u8>, i: int) -> bool {
    let q = i + id.len() + 10;
    let j1 = word_run_end(js, q);
    let j2 = word_run_end(js, j1 + 1);
    &&& matches_at(js, i, id + colon_func())
    &&& j1 > q
    &&& j1 < js.len()
    &&& js[j1] == 44
    &&& j2 > j1 + 1
    &&& j2 < js.len()
    &&& js[j2] == 41
    &&& j2 + 1 < js.len()
    &&& js[j2 + 1] != 10
    &&& !is_word_byte(js[j2 + 1])
    &&& matches_at(js, j2 + 2, bytes_of_chars("var"@))
}

/// Slice fingerprint at `i`: `id` is defined here as a function of two
/// parameters whose body (after an optional `return` keyword and filler
/// byte) reads a dotted member access — `id:function(` two word runs and
/// `)`, the body opener, then the access.
pub open spec fn slice_sig_at(js: Seq<u8>, id: Seq<u8>, i: int) -> bool {
    let q = i + id.len() + 10;
    let j1 = word_run_end(js, q);
    let j2 = word_run_end(js, j1 + 1);
    &&& matches_at(js, i, id + colon_func())
    &&& j1 > q
    &&& j1 < js.len()
    &&& js[j1] == 44
    &&& j2 > j1 + 1
    &&& j2 < js.len()
    &&& js[j2] == 41
    &&& j2 + 1 < js.len()
    &&& js[j2 + 1] != 10
    &&& {
        let p = j2 + 2;
        ||| dotted_at(js, p)
        ||| dotted_at(js, p + 1)
        ||| (matches_at(js, p, bytes_of_chars("return"@)) && (dotted_at(js, p + 6) || dotted_at(
            js,
            p + 7,
        )))
    }
}

/// The reverse fingerprint matches `id` somewhere in the script.
pub open spec fn is_reverse_shape(js: Seq<u8>, id: Seq<u8>) -> bool {
    exists|i: int| reverse_sig_at(js, id, i)
}

/// The swap fingerprint matches `id` somewhere in the script.
pub open spec fn is_swap_shape(js: Seq<u8>, id: Seq<u8>) -> bool {
    exists|i: int| swap_sig_at(js, id, i)
}

/// The slice fingerprint matches `id` somewhere in the script.
pub open spec fn is_slice_shape(js: Seq<u8>, id: Seq<u8>) -> bool {
    exists|i: int| slice_sig_at(js, id, i)
}

fn id_needle(id: &Vec<u8>) -> (r: Vec<u8>)
    ensures
        r@ == id@ + colon_func(),
        r@.len() == id@.len() + 10,
{
    let mut needle = subvec(id, 0, id.len());
    let tail = lit(":function(");
    crate::scan::push_all(&mut needle, &tail);
    proof {
        reveal_strlit(":function(");
        assert(id@.subrange(0, id@.len() as int) =~= id@);
    }
    needle
}

/// Tests whether `js` defines `id` in the reverse shape: a function of a
/// single parameter.
pub fn is_reverse_id(id: &Vec<u8>, js: &Vec<u8>) -> (r: bool)
    ensures
        r == is_reverse_shape(js@, id@),
{
    let needle = id_needle(id);
    let n = js.len();
    let mut from: usize = 0;
    loop
        invariant
            from <= js@.len() + 1,
            n == js@.len(),
            needle@ == id@ + colon_func(),
            needle@.len() == id@.len() + 10,
            forall|k: int| 0 <= k < from ==> !reverse_sig_at(js@, id@, k),
        decreases js@.len() + 1 - from,
    {
        match find_from(js, from, &needle) {
            None => {
                proof {
                    assert(forall|k: int| from <= k ==> !matches_at(js@, k, id@ + colon_func()));
                }
                return false;
            },
            Some(i) => {
                let q = i + needle.len();
                let j1 = word_run(js, q);
                if j1 > q && j1 < n && js[j1] == 41 {
                    proof {
                        assert(reverse_sig_at(js@, id@, i as int));
                    }
                    return true;
                }
                proof {
                    assert(!reverse_sig_at(js@, id@, i as int));
                }
                from = i + 1;
            },
        }
    }
}

/// Tests whether `js` defines `id` in the swap shape: a two-parameter
/// function whose body opens by declaring a local variable.
pub fn is_swap_id(id: &Vec<u8>, js: &Vec<u8>) -> (r: bool)
    ensures
        r == is_swap_shape(js@, id@),
{
    let needle = id_needle(id);
    let var_kw = lit("var");
    let n = js.len();
    let mut from: usize = 0;
    loop
        invariant
            from <= js@.len() + 1,
            n == js@.len(),
            needle@ == id@ + colon_func(),
            needle@.len() == id@.len() + 10,
            var_kw@ == bytes_of_chars("var"@),
            forall|k: int| 0 <= k < from ==> !swap_sig_at(js@, id@, k),
        decreases js@.len() + 1 - from,
    {
        match find_from(js, from, &needle) {
            None => {
                proof {
                    assert(forall|k: int| from <= k ==> !matches_at(js@, k, id@ + colon_func()));
                }
                return false;
            },
            Some(i) => {
                let q = i + needle.len();
                let j1 = word_run(js, q);
                if j1 > q && j1 < n && js[j1] == 44 {
                    let j2 = word_run(js, j1 + 1);
                    if j2 > j1 + 1 && j2 < n && js[j2] == 41 && n - j2 > 1 && js[j2 + 1] != 10
                        && !word_byte(js[j2 + 1]) && match_at(js, j2 + 2, &var_kw) {
                        proof {
                            assert(swap_sig_at(js@, id@, i as int));
                        }
                        return true;
                    }
                }
                proof {
                    assert(!swap_sig_at(js@, id@, i as int));
                }
                from = i + 1;
            },
        }
    }
}

fn dotted(js: &Vec<u8>, p: usize) -> (r: bool)
    ensures
        r == dotted_at(js@, p as int),
{
    if p > js.len() {
        return false;
    }
    let j = word_run(js, p);
    j > p && j < js.len() && js[j] == 46
}

/// Tests whether `js` defines `id` in the slice shape: a two-parameter
/// function whose body reads a dotted member access, optionally behind a
/// `return`.
pub fn is_slice_id(id: &Vec<u8>, js: &Vec<u8>) -> (r: bool)
    ensures
        r == is_slice_shape(js@, id@),
{
    let needle = id_needle(id);
    let ret_kw = lit("return");
    let n = js.len();
    proof {
        reveal_strlit("return");
    }
    let mut from: usize = 0;
    loop
        invariant
            from <= js@.len() + 1,
            n == js@.len(),
            needle@ == id@ + colon_func(),
            needle@.len() == id@.len() + 10,
            ret_kw@ == bytes_of_chars("return"@),
            ret_kw@.len() == 6,
            forall|k: int| 0 <= k < from ==> !slice_sig_at(js@, id@, k),
        decreases js@.len() + 1 - from,
    {
        match find_from(js, from, &needle) {
            None => {
                proof {
                    assert(forall|k: int| from <= k ==> !matches_at(js@, k, id@ + colon_func()));
                }
                return false;
            },
            Some(i) => {
                let q = i + needle.len();
                let j1 = word_run(js, q);
                if j1 > q && j1 < n && js[j1] == 44 {
                    let j2 = word_run(js, j1 + 1);
                    if j2 > j1 + 1 && j2 < n && js[j2] == 41 && n - j2 > 1 && js[j2 + 1] != 10 {
                        let p = j2 + 2;
                        let hit = if dotted(js, p) {
                            true
                        } else if p < n && dotted(js, p + 1) {
                            true
                        } else if match_at(js, p, &ret_kw) && (dotted(js, p + 6) || (p + 6 < n
                            && dotted(js, p + 7))) {
                            true
                        } else {
                            false
                        };
                        if hit {
                            proof {
                                assert(slice_sig_at(js@, id@, i as int));
                            }
                            return true;
                        }
                    }
                }
                proof {
                    assert(!slice_sig_at(js@, id@, i as int));
                }
                from = i + 1;
            },
        }
    }
}

/// The kind of primitive transform an identifier's definition matches.
#[derive(Clone, Copy, Debug, PartialEq, Eq, Structural)]
pub enum TransformKind {
    Reverse,
    Swap,
    Slice,
}

/// Classification of a helper identifier against the three fingerprints,
/// in fixed precedence order: reverse first, then swap, then slice.
pub open spec fn classify(js: Seq<u8>, id: Seq<u8>) -> Option<TransformKind> {
    if is_reverse_shape(js, id) {
        Some(TransformKind::Reverse)
    } else if is_swap_shape(js, id) {
        Some(TransformKind::Swap)
    } else if is_slice_shape(js, id) {
        Some(TransformKind::Slice)
    } else {
        None
    }
}

/// Precedence tie-break: a definition that satisfies both the swap and
/// the slice fingerprint classifies as swap.
pub proof fn lemma_swap_precedes_slice(js: Seq<u8>, id: Seq<u8>)
    requires
        is_swap_shape(js, id),
        is_slice_shape(js, id),
        !is_reverse_shape(js, id),
    ensures
        classify(js, id) == Some(TransformKind::Swap),
{
}

/// Precedence tie-break: the reverse fingerprint wins over both others.
pub proof fn lemma_reverse_precedes(js: Seq<u8>, id: Seq<u8>)
    requires
        is_reverse_shape(js, id),
    ensures
        classify(js, id) == Some(TransformKind::Reverse),
{
}

/// A statement that is a transform invocation: anything but a `return`.
pub open spec fn is_transform_stmt(stmt: Seq<u8>) -> bool {
    !matches_at(stmt, 0, bytes_of_chars("return"@))
}

/// The transform one statement stands for: its helper's classification,
/// with the statement's own numeric argument as the index for swap and
/// slice.  A helper matching no fingerprint, or a missing argument, is an
/// unknown transform.
pub open spec fn stmt_op(js: Seq<u8>, stmt: Seq<u8>) -> Result<CryptOp, ErrorKind> {
    match classify(js, id_of(stmt)) {
        Some(TransformKind::Reverse) => Ok(CryptOp::Reverse),
        Some(TransformKind::Swap) => match stmt_arg(stmt) {
            Some(v) => Ok(CryptOp::Swap(v as usize)),
            None => Err(ErrorKind::UnknownTransform),
        },
        Some(TransformKind::Slice) => match stmt_arg(stmt) {
            Some(v) => Ok(CryptOp::Slice(v as usize)),
            None => Err(ErrorKind::UnknownTransform),
        },
        None => Err(ErrorKind::UnknownTransform),
    }
}

/// The transforms a list of statements stands for, in order, skipping
/// `return` statements; the first unknown transform fails the whole
/// decomposition.
pub open spec fn ops_of_stmts(js: Seq<u8>, stmts: Seq<Seq<u8>>) -> Result<Seq<CryptOp>, ErrorKind>
    decreases stmts.len(),
{
    if stmts.len() == 0 {
        Ok(Seq::empty())
    } else if !is_transform_stmt(stmts[0]) {
        ops_of_stmts(js, stmts.skip(1))
    } else {
        match stmt_op(js, stmts[0]) {
            Ok(op) => match ops_of_stmts(js, stmts.skip(1)) {
                Ok(rest) => Ok(seq![op] + rest),
                Err(e) => Err(e),
            },
            Err(e) => Err(e),
        }
    }
}

/// The whole discovery: the function the idiom names, its captured body
/// split into statements on `;`, the scaffolding first statement
/// discarded, and the rest decomposed into transforms.
pub open spec fn discover_spec(js: Seq<u8>) -> Result<Seq<CryptOp>, ErrorKind> {
    match decrypt_fn_name(js) {
        None => Err(ErrorKind::DescramblerNotFound),
        Some(name) => match function_body(js, name) {
            None => Err(ErrorKind::DescramblerNotFound),
            Some(body) => ops_of_stmts(js, split_seq(body, 59).skip(1)),
        },
    }
}

/// Discovers the ordered transform sequence of the script's descrambling
/// routine.  Classification is memoized: the first statement invoking an
/// identifier fingerprints it against the whole script; later statements
/// reuse the remembered kind and re-read only their own numeric argument.
pub fn discover_operations(js: &Vec<u8>) -> (r: Result<Vec<CryptOp>, Error>)
    ensures
        match r {
            Ok(v) => discover_spec(js@) == Ok::<_, ErrorKind>(v@),
            Err(e) => discover_spec(js@) == Err::<Seq<CryptOp>, _>(e.kind),
        },
{
    let name = match decrypt_function(js) {
        Ok(n) => n,
        Err(e) => {
            return Err(e);
        },
    };
    let body = match capture_body(js, &name) {
        Ok(b) => b,
        Err(e) => {
            return Err(e);
        },
    };
    let stmts = split(&body, 59);
    let ghost sdv = stmts.deep_view();
    let ret_kw = lit("return");
    proof {
        lemma_split_len(body@, 59);
        assert(sdv.len() == stmts@.len());
    }
    let mut ops: Vec<CryptOp> = Vec::new();
    let mut reverse_id: Option<Vec<u8>> = None;
    let mut swap_id: Option<Vec<u8>> = None;
    let mut slice_id: Option<Vec<u8>> = None;
    let mut i: usize = 1;
    proof {
        let tail = ops_of_stmts(js@, sdv.skip(1));
        assert(tail matches Ok(rest) ==> ops@ + rest =~= rest);
    }
    while i < stmts.len()
        invariant
            1 <= i <= stmts@.len(),
            sdv == stmts.deep_view(),
            sdv.len() == stmts@.len(),
            decrypt_fn_name(js@) == Some(name@),
            function_body(js@, name@) == Some(body@),
            sdv == split_seq(body@, 59),
            ret_kw@ == bytes_of_chars("return"@),
            reverse_id matches Some(v) ==> classify(js@, v@) == Some(TransformKind::Reverse),
            swap_id matches Some(v) ==> classify(js@, v@) == Some(TransformKind::Swap),
            slice_id matches Some(v) ==> classify(js@, v@) == Some(TransformKind::Slice),
            match ops_of_stmts(js@, sdv.skip(i as int)) {
                Ok(rest) => ops_of_stmts(js@, sdv.skip(1)) == Ok::<_, ErrorKind>(ops@ + rest),
                Err(e) => ops_of_stmts(js@, sdv.skip(1)) == Err::<Seq<CryptOp>, _>(e),
            },
        decreases stmts@.len() - i,
    {
        let stmt = &stmts[i];
        proof {
            assert(stmts.deep_view()[i as int] == stmt.deep_view());
            assert(stmt.deep_view() =~= stmt@);
            assert(sdv.skip(i as int)[0] == sdv[i as int]);
            assert(sdv.skip(i as int).skip(1) =~= sdv.skip(i as int + 1));
        }
        if match_at(stmt, 0, &ret_kw) {
            i += 1;
            continue;
        }
        let id = get_id(stmt);
        let ghost idv = id@;
        proof {
            assert(idv == id_of(sdv[i as int]));
        }
        let hit_rev = match &reverse_id {
            Some(rid) => crate::scan::bytes_eq(rid, &id),
            None => false,
        };
        let hit_swap = match &swap_id {
            Some(sid) => crate::scan::bytes_eq(sid, &id),
            None => false,
        };
        let hit_slice = match &slice_id {
            Some(sid) => crate::scan::bytes_eq(sid, &id),
            None => false,
        };
        let kind: Option<TransformKind> = if hit_rev {
            Some(TransformKind::Reverse)
        } else if hit_swap {
            Some(TransformKind::Swap)
        } else if hit_slice {
            Some(TransformKind::Slice)
        } else if is_reverse_id(&id, js) {
            reverse_id = Some(id);
            Some(TransformKind::Reverse)
        } else if is_swap_id(&id, js) {
            swap_id = Some(id);
            Some(TransformKind::Swap)
        } else if is_slice_id(&id, js) {
            slice_id = Some(id);
            Some(TransformKind::Slice)
        } else {
            None
        };
        proof {
            assert(match kind {
                Some(k) => classify(js@, idv) == Some(k),
                None => classify(js@, idv) is None,
            });
        }
        let op: CryptOp = match kind {
            Some(TransformKind::Reverse) => CryptOp::Reverse,
            Some(TransformKind::Swap) => match CryptOp::swap(stmt) {
                Ok(op) => op,
                Err(e) => {
                    return Err(e);
                },
            },
            Some(TransformKind::Slice) => match CryptOp::slice(stmt) {
                Ok(op) => op,
                Err(e) => {
                    return Err(e);
                },
            },
            None => {
                return Err(Error::new(ErrorKind::UnknownTransform, "unknown transform"));
            },
        };
        proof {
            assert(stmt_op(js@, sdv[i as int]) == Ok::<_, ErrorKind>(op));
        }
        let ghost prev_ops = ops@;
        ops.push(op);
        i += 1;
        proof {
            let tail_new = ops_of_stmts(js@, sdv.skip(i as int));
            assert(tail_new matches Ok(rest) ==> prev_ops + (seq![op] + rest) =~= ops@ + rest);
        }
    }
    proof {
        assert(sdv.skip(sdv.len() as int) =~= Seq::<Seq<u8>>::empty());
        let tail = ops_of_stmts(js@, sdv.skip(sdv.len() as int));
        assert(tail matches Ok(rest) ==> ops@ + rest =~= ops@);
    }
    Ok(ops)
}

/// The bytes `"js":"` that introduce the player-script path on the page.
pub open spec fn js_key() -> Seq<u8> {
    bytes_of_chars("\"js\":\""@)
}

/// The player script's absolute URL: the first captured path with its
/// escaped slashes restored, percent-escapes decoded, and the scheme
/// prefixed.
pub open spec fn player_path(page: Seq<u8>) -> Option<Seq<u8>> {
    match captured(page, js_key(), 34) {
        Some(path) => Some(
            bytes_of_chars("http:"@) + pct_decode(
                replace_seq(path, bytes_of_chars("\\/"@), bytes_of_chars("/"@)),
                false,
            ),
        ),
        None => None,
    }
}

/// Reads the player script's URL out of the metadata page.  Fails with
/// `DescramblerNotFound` when the page names no script.
pub fn read_js_player(page: &Vec<u8>) -> (r: Result<Vec<u8>, Error>)
    ensures
        match r {
            Ok(u) => player_path(page@) == Some(u@),
            Err(e) => e.kind == ErrorKind::DescramblerNotFound && player_path(page@) is None,
        },
{
    let key = lit("\"js\":\"");
    let esc = lit("\\/");
    let slash = lit("/");
    proof {
        reveal_strlit("\"js\":\"");
        reveal_strlit("\\/");
    }
    match find_capture(page, &key, 34) {
        None => Err(
            Error::new(ErrorKind::DescramblerNotFound, "unable to load javascript player"),
        ),
        Some(capture) => {
            let restored = crate::urlenc::replace(&capture, &esc, &slash);
            let decoded = crate::urlenc::unquote(&restored);
            let mut out = lit("http:");
            crate::scan::push_all(&mut out, &decoded);
            Ok(out)
        },
    }
}

/// The descrambled stream URL: the transforms the script prescribes,
/// replayed on the signature, appended to the URL as its `signature`
/// parameter.
pub open spec fn decrypt_spec(uri: Seq<u8>, js: Seq<u8>, sig: Seq<u8>) -> Result<Seq<u8>, ErrorKind> {
    match discover_spec(js) {
        Err(k) => Err(k),
        Ok(ops) => match crate::crypt::apply_ops(ops, sig) {
            Some(t) => Ok(uri + bytes_of_chars("&signature="@) + t),
            None => Err(ErrorKind::IndexOutOfRange),
        },
    }
}

/// Descrambles `sig` as the player script `js` prescribes and appends the
/// result to `uri` as its `signature` parameter.
pub fn decrypt_with_script(uri: &Vec<u8>, js: &Vec<u8>, sig: &Vec<u8>) -> (r: Result<
    Vec<u8>,
    Error,
>)
    ensures
        match r {
            Ok(u) => decrypt_spec(uri@, js@, sig@) == Ok::<_, ErrorKind>(u@),
            Err(e) => decrypt_spec(uri@, js@, sig@) == Err::<Seq<u8>, _>(e.kind),
        },
{
    let ops = match discover_operations(js) {
        Ok(ops) => ops,
        Err(e) => {
            return Err(e);
        },
    };
    let sigv = subvec(sig, 0, sig.len());
    proof {
        assert(sigv@ =~= sig@);
    }
    match crate::crypt::apply_all(&ops, sigv) {
        Err(e) => Err(e),
        Ok(t) => {
            let mut out = subvec(uri, 0, uri.len());
            proof {
                assert(out@ =~= uri@);
            }
            let marker = lit("&signature=");
            crate::scan::push_all(&mut out, &marker);
            crate::scan::push_all(&mut out, &t);
            Ok(out)
        },
    }
}

} // verus!
