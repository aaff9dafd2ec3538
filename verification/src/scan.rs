//! Byte-level scanning primitives.
//!
//! Every pattern the library mines from provider text — stream-map blobs,
//! script idioms, structural fingerprints — is built from these verified
//! scanners: substring search with first-occurrence semantics, byte search,
//! word-character runs, and subsequence extraction.

use vstd::prelude::*;

verus! {

/// A word byte: an ASCII letter, digit, or underscore.
pub open spec fn is_word_byte(b: u8) -> bool {
    (97 <= b && b <= 122) || (65 <= b && b <= 90) || (48 <= b && b <= 57) || b == 95
}

/// An ASCII decimal digit.
pub open spec fn is_digit_byte(b: u8) -> bool {
    48 <= b && b <= 57
}

/// Executable test for [`is_word_byte`].
pub fn word_byte(b: u8) -> (r: bool)
    ensures
        r == is_word_byte(b),
{
    (97 <= b && b <= 122) || (65 <= b && b <= 90) || (48 <= b && b <= 57) || b == 95
}

/// Executable test for [`is_digit_byte`].
pub fn digit_byte(b: u8) -> (r: bool)
    ensures
        r == is_digit_byte(b),
{
    48 <= b && b <= 57
}

/// The characters of `cs`, each truncated to a byte.  On ASCII text — all
/// the idioms this library scans for — this is the text's byte spelling.
pub open spec fn bytes_of_chars(cs: Seq<char>) -> Seq<u8> {
    Seq::new(cs.len(), |i: int| cs[i] as u8)
}

/// Spells a string out as bytes, character by character.  Applied to the
/// ASCII pattern literals the library scans for.
pub fn lit(s: &str) -> (r: Vec<u8>)
    ensures
        r@ == bytes_of_chars(s@),
{
    let n = s.unicode_len();
    let mut r: Vec<u8> = Vec::new();
    let mut i: usize = 0;
    while i < n
        invariant
            i <= n,
            n == s@.len(),
            r@.len() == i,
            forall|k: int| 0 <= k < i ==> r@[k] == s@[k] as u8,
        decreases n - i,
    {
        let c = s.get_char(i);
        r.push(c as u8);
        i += 1;
    }
    proof {
        assert(r@ =~= bytes_of_chars(s@));
    }
    r
}

/// The needle `n` occurs in `h` starting at position `i`.
pub open spec fn matches_at(h: Seq<u8>, i: int, n: Seq<u8>) -> bool {
    &&& 0 <= i
    &&& i + n.len() <= h.len()
    &&& forall|k: int| 0 <= k < n.len() ==> h[i + k] == #[trigger] n[k]
}

/// The needle `n` occurs somewhere in `h`.
pub open spec fn contains_seq(h: Seq<u8>, n: Seq<u8>) -> bool {
    exists|i: int| matches_at(h, i, n)
}

/// Tests whether `n` occurs in `h` at position `i`.
pub fn match_at(h: &Vec<u8>, i: usize, n: &Vec<u8>) -> (r: bool)
    ensures
        r == matches_at(h@, i as int, n@),
{
    if n.len() > h.len() || i > h.len() - n.len() {
        return false;
    }
    let mut k: usize = 0;
    while k < n.len()
        invariant
            k <= n.len(),
            i + n.len() <= h.len(),
            forall|t: int| 0 <= t < k ==> h@[i + t] == #[trigger] n@[t],
        decreases n.len() - k,
    {
        if h[i + k] != n[k] {
            return false;
        }
        k += 1;
    }
    true
}

/// Finds the first occurrence of `n` in `h` at or after `start`.
pub fn find_from(h: &Vec<u8>, start: usize, n: &Vec<u8>) -> (r: Option<usize>)
    ensures
        match r {
            Some(i) => start <= i && matches_at(h@, i as int, n@) && forall|j: int|
                start <= j < i ==> !matches_at(h@, j, n@),
            None => forall|j: int| j >= start ==> !matches_at(h@, j, n@),
        },
{
    if n.len() > h.len() || start > h.len() - n.len() {
        return None;
    }
    let last = h.len() - n.len();
    let mut i = start;
    while i <= last
        invariant
            start <= i,
            i <= last + 1,
            n.len() <= h.len(),
            last == h.len() - n.len(),
            forall|j: int| start <= j < i ==> !matches_at(h@, j, n@),
        decreases last + 1 - i,
    {
        if match_at(h, i, n) {
            return Some(i);
        }
        i += 1;
    }
    None
}

/// Finds the first occurrence of `n` in `h`.
pub fn find_sub(h: &Vec<u8>, n: &Vec<u8>) -> (r: Option<usize>)
    ensures
        match r {
            Some(i) => matches_at(h@, i as int, n@) && forall|j: int|
                0 <= j < i ==> !matches_at(h@, j, n@),
            None => !contains_seq(h@, n@),
        },
{
    find_from(h, 0, n)
}

/// Tests whether `n` occurs anywhere in `h`.
pub fn contains_sub(h: &Vec<u8>, n: &Vec<u8>) -> (r: bool)
    ensures
        r == contains_seq(h@, n@),
{
    match find_sub(h, n) {
        Some(_) => true,
        None => false,
    }
}

/// Finds the first position at or after `start` holding the byte `b`.
pub fn index_of_from(h: &Vec<u8>, start: usize, b: u8) -> (r: Option<usize>)
    ensures
        match r {
            Some(i) => start <= i < h@.len() && h@[i as int] == b && forall|j: int|
                start <= j < i ==> h@[j] != b,
            None => forall|j: int| start <= j < h@.len() ==> h@[j] != b,
        },
{
    let mut i = start;
    while i < h.len()
        invariant
            start <= i,
            forall|j: int| start <= j < i && j < h@.len() ==> h@[j] != b,
        decreases h.len() - i,
    {
        if h[i] == b {
            return Some(i);
        }
        i += 1;
    }
    None
}

/// The end of the run of word bytes beginning at `i`: the first position at
/// or after `i` that is past the end of `h` or holds a non-word byte.
pub open spec fn word_run_end(h: Seq<u8>, i: int) -> int
    decreases h.len() - i when 0 <= i <= h.len()
{
    if i < h.len() && is_word_byte(h[i]) {
        word_run_end(h, i + 1)
    } else {
        i
    }
}

/// Computes [`word_run_end`].
pub fn word_run(h: &Vec<u8>, i: usize) -> (j: usize)
    requires
        i <= h@.len(),
    ensures
        j == word_run_end(h@, i as int),
        i <= j <= h@.len(),
{
    let mut j = i;
    while j < h.len() && word_byte(h[j])
        invariant
            i <= j <= h@.len(),
            word_run_end(h@, i as int) == word_run_end(h@, j as int),
        decreases h.len() - j,
    {
        j += 1;
    }
    j
}

/// The first position at or after `i` where `n` occurs in `h`.
pub open spec fn first_match_from(h: Seq<u8>, n: Seq<u8>, i: int) -> Option<int>
    decreases h.len() - i when 0 <= i <= h.len()
{
    if i >= h.len() {
        None
    } else if matches_at(h, i, n) {
        Some(i)
    } else {
        first_match_from(h, n, i + 1)
    }
}

/// A first occurrence determines [`first_match_from`].
pub proof fn lemma_first_match_from(h: Seq<u8>, n: Seq<u8>, lo: int, j: int)
    requires
        0 <= lo <= j <= h.len(),
        forall|k: int| lo <= k < j ==> !matches_at(h, k, n),
    ensures
        j < h.len() && matches_at(h, j, n) ==> first_match_from(h, n, lo) == Some(j),
        (j == h.len() && forall|k: int| lo <= k ==> !matches_at(h, k, n)) ==> first_match_from(
            h,
            n,
            lo,
        ) is None,
    decreases j - lo,
{
    if lo < j {
        lemma_first_match_from(h, n, lo + 1, j);
    }
}

/// The last position of `b` in `s`, or `-1` if `b` is absent.
pub open spec fn last_index_of(s: Seq<u8>, b: u8) -> int
    decreases s.len(),
{
    if s.len() == 0 {
        -1
    } else if s.last() == b {
        s.len() - 1
    } else {
        last_index_of(s.drop_last(), b)
    }
}

/// What [`last_index_of`] names: a position in range that holds `b`,
/// with nothing after it holding `b`.
pub proof fn lemma_last_index_of(s: Seq<u8>, b: u8)
    ensures
        -1 <= last_index_of(s, b) < s.len(),
        last_index_of(s, b) >= 0 ==> s[last_index_of(s, b)] == b,
        forall|k: int| last_index_of(s, b) < k < s.len() ==> s[k] != b,
    decreases s.len(),
{
    if s.len() > 0 && s.last() != b {
        lemma_last_index_of(s.drop_last(), b);
        assert(forall|k: int| 0 <= k < s.len() - 1 ==> s[k] == s.drop_last()[k]);
    }
}

/// A last occurrence determines [`last_index_of`].
pub proof fn lemma_last_index_of_is(s: Seq<u8>, b: u8, j: int)
    requires
        -1 <= j < s.len(),
        j >= 0 ==> s[j] == b,
        forall|k: int| j < k < s.len() ==> s[k] != b,
    ensures
        last_index_of(s, b) == j,
    decreases s.len(),
{
    if s.len() == 0 {
    } else if s.last() == b {
        assert(j == s.len() - 1);
    } else {
        assert(j < s.len() - 1);
        assert(forall|k: int| 0 <= k < s.len() - 1 ==> s.drop_last()[k] == s[k]);
        lemma_last_index_of_is(s.drop_last(), b, j);
    }
}

/// Finds the last position of `b` in `s`.
pub fn rfind_byte(s: &Vec<u8>, b: u8) -> (r: Option<usize>)
    ensures
        match r {
            Some(j) => last_index_of(s@, b) == j,
            None => last_index_of(s@, b) == -1,
        },
{
    let mut i = s.len();
    while i > 0
        invariant
            i <= s@.len(),
            forall|k: int| i <= k < s@.len() ==> s@[k] != b,
        decreases i,
    {
        i -= 1;
        if s[i] == b {
            proof {
                lemma_last_index_of_is(s@, b, i as int);
            }
            return Some(i);
        }
    }
    proof {
        lemma_last_index_of_is(s@, b, -1);
    }
    None
}

/// Tests whether the two byte vectors hold the same bytes.
pub fn bytes_eq(a: &Vec<u8>, b: &Vec<u8>) -> (r: bool)
    ensures
        r == (a@ == b@),
{
    if a.len() != b.len() {
        return false;
    }
    let mut k: usize = 0;
    while k < a.len()
        invariant
            k <= a@.len(),
            a@.len() == b@.len(),
            forall|t: int| 0 <= t < k ==> a@[t] == b@[t],
        decreases a.len() - k,
    {
        if a[k] != b[k] {
            return false;
        }
        k += 1;
    }
    proof {
        assert(a@ =~= b@);
    }
    true
}

/// Copies the range `[i, j)` of `h` into a fresh vector.
pub fn subvec(h: &Vec<u8>, i: usize, j: usize) -> (r: Vec<u8>)
    requires
        i <= j <= h@.len(),
    ensures
        r@ == h@.subrange(i as int, j as int),
{
    let mut r: Vec<u8> = Vec::new();
    let mut k = i;
    proof {
        assert(r@ =~= h@.subrange(i as int, i as int));
    }
    while k < j
        invariant
            i <= k <= j <= h@.len(),
            r@ == h@.subrange(i as int, k as int),
        decreases j - k,
    {
        r.push(h[k]);
        k += 1;
        proof {
            assert(r@ =~= h@.subrange(i as int, k as int));
        }
    }
    r
}

/// Copies the whole of `h` into a fresh vector.
pub fn copy_vec(h: &Vec<u8>) -> (r: Vec<u8>)
    ensures
        r@ == h@,
{
    let r = subvec(h, 0, h.len());
    proof {
        assert(r@ =~= h@);
    }
    r
}

/// Appends all bytes of `tail` onto `head`.
pub fn push_all(head: &mut Vec<u8>, tail: &Vec<u8>)
    ensures
        final(head)@ == old(head)@ + tail@,
{
    let ghost head0 = head@;
    let mut k: usize = 0;
    proof {
        assert(head@ =~= head0 + tail@.subrange(0, 0));
    }
    while k < tail.len()
        invariant
            k <= tail@.len(),
            head@ == head0 + tail@.subrange(0, k as int),
        decreases tail.len() - k,
    {
        head.push(tail[k]);
        k += 1;
        proof {
            assert(head@ =~= head0 + tail@.subrange(0, k as int));
        }
    }
    proof {
        assert(tail@.subrange(0, tail@.len() as int) =~= tail@);
    }
}

} // verus!
