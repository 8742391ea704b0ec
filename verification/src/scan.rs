//! Verified scanning primitives for the annotation grammar.
//!
//! The annotation micro-language is line-oriented: section markers, section
//! ends and bullets are all recognised by scanning runs of whitespace and
//! fixed characters. Each spec function here gives the exact meaning of one
//! scanning step; each exec function is proved to compute it.

use vstd::prelude::*;
use crate::text::is_wsp;
use crate::text::is_space;

verus! {

/// The end of the maximal whitespace run starting at `i`, bounded by `hi`.
pub open spec fn wsp_end_to(s: Seq<char>, i: int, hi: int) -> int
    decreases hi - i,
{
    if i < 0 || i >= hi || hi > s.len() || !is_wsp(s[i]) {
        i
    } else {
        wsp_end_to(s, i + 1, hi)
    }
}

/// The end of the maximal `'#'` run starting at `i`, bounded by `hi`.
pub open spec fn hash_end_to(s: Seq<char>, i: int, hi: int) -> int
    decreases hi - i,
{
    if i < 0 || i >= hi || hi > s.len() || s[i] != '#' {
        i
    } else {
        hash_end_to(s, i + 1, hi)
    }
}

/// The offset of the first occurrence of `c` in `s[i..hi]`, or `hi` if none.
pub open spec fn char_find(s: Seq<char>, c: char, i: int, hi: int) -> int
    decreases hi - i,
{
    if i < 0 || i >= hi || hi > s.len() || s[i] == c {
        i
    } else {
        char_find(s, c, i + 1, hi)
    }
}

/// The start of the trimmed text of `s[lo..hi]`: the first non-whitespace
/// offset, or `hi` if the whole range is whitespace.
pub open spec fn trim_lo(s: Seq<char>, lo: int, hi: int) -> int {
    wsp_end_to(s, lo, hi)
}

/// The end of the trimmed text of `s[lo..hi]`: one past the last
/// non-whitespace offset, or `lo` if the whole range is whitespace.
pub open spec fn trim_hi(s: Seq<char>, lo: int, hi: int) -> int
    decreases hi - lo,
{
    if lo < 0 || hi <= lo || hi > s.len() || !is_wsp(s[hi - 1]) {
        hi
    } else {
        trim_hi(s, lo, hi - 1)
    }
}

/// Basic bounds of [`wsp_end_to`].
pub proof fn lemma_wsp_end_to_bounds(s: Seq<char>, i: int, hi: int)
    requires
        0 <= i <= hi <= s.len(),
    ensures
        i <= wsp_end_to(s, i, hi) <= hi,
        forall|k: int| i <= k < wsp_end_to(s, i, hi) ==> is_wsp(s[k]),
        wsp_end_to(s, i, hi) < hi ==> !is_wsp(s[wsp_end_to(s, i, hi)]),
    decreases hi - i,
{
    if i < hi && is_wsp(s[i]) {
        lemma_wsp_end_to_bounds(s, i + 1, hi);
    }
}

/// Basic bounds of [`hash_end_to`].
pub proof fn lemma_hash_end_to_bounds(s: Seq<char>, i: int, hi: int)
    requires
        0 <= i <= hi <= s.len(),
    ensures
        i <= hash_end_to(s, i, hi) <= hi,
        forall|k: int| i <= k < hash_end_to(s, i, hi) ==> s[k] == '#',
        hash_end_to(s, i, hi) < hi ==> s[hash_end_to(s, i, hi)] != '#',
    decreases hi - i,
{
    if i < hi && s[i] == '#' {
        lemma_hash_end_to_bounds(s, i + 1, hi);
    }
}

/// Basic bounds of [`char_find`].
pub proof fn lemma_char_find_bounds(s: Seq<char>, c: char, i: int, hi: int)
    requires
        0 <= i <= hi <= s.len(),
    ensures
        i <= char_find(s, c, i, hi) <= hi,
        forall|k: int| i <= k < char_find(s, c, i, hi) ==> s[k] != c,
        char_find(s, c, i, hi) < hi ==> s[char_find(s, c, i, hi)] == c,
    decreases hi - i,
{
    if i < hi && s[i] != c {
        lemma_char_find_bounds(s, c, i + 1, hi);
    }
}

/// Basic bounds of [`trim_hi`].
pub proof fn lemma_trim_hi_bounds(s: Seq<char>, lo: int, hi: int)
    requires
        0 <= lo <= hi <= s.len(),
    ensures
        lo <= trim_hi(s, lo, hi) <= hi,
        forall|k: int| trim_hi(s, lo, hi) <= k < hi ==> is_wsp(s[k]),
        trim_hi(s, lo, hi) > lo ==> !is_wsp(s[trim_hi(s, lo, hi) - 1]),
    decreases hi - lo,
{
    if lo < hi && is_wsp(s[hi - 1]) {
        lemma_trim_hi_bounds(s, lo, hi - 1);
    }
}

/// Computes [`wsp_end_to`].
pub fn scan_wsp(v: &Vec<char>, i: usize, hi: usize) -> (r: usize)
    requires
        i <= hi <= v@.len(),
    ensures
        r == wsp_end_to(v@, i as int, hi as int),
        i <= r <= hi,
{
    let mut j: usize = i;
    while j < hi && is_space(v[j])
        invariant
            i <= j <= hi <= v@.len(),
            wsp_end_to(v@, i as int, hi as int) == wsp_end_to(v@, j as int, hi as int),
        decreases hi - j,
    {
        j = j + 1;
    }
    j
}

/// Computes [`hash_end_to`].
pub fn scan_hashes(v: &Vec<char>, i: usize, hi: usize) -> (r: usize)
    requires
        i <= hi <= v@.len(),
    ensures
        r == hash_end_to(v@, i as int, hi as int),
        i <= r <= hi,
{
    let mut j: usize = i;
    while j < hi && v[j] == '#'
        invariant
            i <= j <= hi <= v@.len(),
            hash_end_to(v@, i as int, hi as int) == hash_end_to(v@, j as int, hi as int),
        decreases hi - j,
    {
        j = j + 1;
    }
    j
}

/// Computes [`char_find`].
pub fn scan_char(v: &Vec<char>, c: char, i: usize, hi: usize) -> (r: usize)
    requires
        i <= hi <= v@.len(),
    ensures
        r == char_find(v@, c, i as int, hi as int),
        i <= r <= hi,
{
    let mut j: usize = i;
    while j < hi && v[j] != c
        invariant
            i <= j <= hi <= v@.len(),
            char_find(v@, c, i as int, hi as int) == char_find(v@, c, j as int, hi as int),
        decreases hi - j,
    {
        j = j + 1;
    }
    j
}

/// Computes [`trim_hi`].
pub fn scan_trim_hi(v: &Vec<char>, lo: usize, hi: usize) -> (r: usize)
    requires
        lo <= hi <= v@.len(),
    ensures
        r == trim_hi(v@, lo as int, hi as int),
        lo <= r <= hi,
{
    let mut j: usize = hi;
    while j > lo && is_space(v[j - 1])
        invariant
            lo <= j <= hi <= v@.len(),
            trim_hi(v@, lo as int, hi as int) == trim_hi(v@, lo as int, j as int),
        decreases j,
    {
        j = j - 1;
    }
    j
}

} // verus!
