//! Section markers of the annotation grammar.
//!
//! A requirement section is introduced by a header line: optional
//! whitespace, one or more `#`, a space, and a keyword, alone on its line.
//! A justification section is introduced by a bare `Keyword:` line. Each
//! property supplies its own keyword; both its ordinary and its all-caps
//! spelling are accepted.
//!
//! A marker match also consumes the newline that precedes the marker line
//! and the one that closes it, so the text that follows a match starts at
//! the next line.

use vstd::prelude::*;
use crate::text::is_wsp;
use crate::text::occurs_at;
use crate::scan::wsp_end_to;
use crate::scan::hash_end_to;
use crate::scan::lemma_wsp_end_to_bounds;
use crate::scan::lemma_hash_end_to_bounds;
use crate::text::is_space;

verus! {

/// How a section marker is written.
#[derive(Debug, Clone, Copy, PartialEq, Eq, Structural)]
pub enum MarkerStyle {
    /// A markdown header line: `# Keyword`.
    Header,
    /// A bare keyword line: `Keyword:`.
    InlineColon,
}

/// A section-marker pattern: a style and the two accepted spellings of the
/// keyword.
#[derive(Debug)]
pub struct SectionMarker {
    pub style: MarkerStyle,
    pub word: Vec<char>,
    pub word_caps: Vec<char>,
}

impl SectionMarker {
    /// Marker keywords are non-empty single words.
    pub open spec fn wf(&self) -> bool {
        wf_keyword(self.word@) && wf_keyword(self.word_caps@)
    }
}

/// A marker keyword: non-empty, no whitespace, no `#` or `:`.
pub open spec fn wf_keyword(w: Seq<char>) -> bool {
    &&& w.len() > 0
    &&& forall|k: int| 0 <= k < w.len() ==> !is_wsp(#[trigger] w[k]) && w[k] != '#' && w[k] != ':'
}

/// If a marker match starts at `i`, the position just after it; `None`
/// when no match starts at `i`.
///
/// `lo` is the start of the searched window (the window always extends to
/// the end of the text): a match may start there, or at any newline.
/// The match consumes that newline, any run of whitespace, the marker line
/// itself and the newline that closes it (when the line is not the last).
pub open spec fn marker_match_end(
    s: Seq<char>,
    style: MarkerStyle,
    w1: Seq<char>,
    w2: Seq<char>,
    lo: int,
    i: int,
) -> Option<int> {
    if !(0 <= lo <= i <= s.len()) {
        None
    } else if !(i == lo || (i < s.len() && s[i] == '\n')) {
        None
    } else {
        let a = if i < s.len() && s[i] == '\n' {
            i + 1
        } else {
            i
        };
        let w = wsp_end_to(s, a, s.len() as int);
        match style {
            MarkerStyle::Header => {
                let h = hash_end_to(s, w, s.len() as int);
                if h == w {
                    None
                } else if h < s.len() && s[h] == ' ' {
                    keyword_tail_end(s, w1, w2, h + 1, 0)
                } else {
                    None
                }
            },
            MarkerStyle::InlineColon => keyword_tail_end(s, w1, w2, w, 1),
        }
    }
}

/// The end of a marker whose keyword starts at `p`, followed by `extra`
/// colons and then a line end. Tries the first spelling, then the second.
pub open spec fn keyword_tail_end(
    s: Seq<char>,
    w1: Seq<char>,
    w2: Seq<char>,
    p: int,
    extra: int,
) -> Option<int> {
    if occurs_at(s, w1, p) && spelling_close(s, p + w1.len(), extra) is Some {
        spelling_close(s, p + w1.len(), extra)
    } else if occurs_at(s, w2, p) && spelling_close(s, p + w2.len(), extra) is Some {
        spelling_close(s, p + w2.len(), extra)
    } else {
        None
    }
}

/// After the keyword at `q`: `extra` colons (0 or 1), then either the end
/// of the text or a newline, which the match consumes.
pub open spec fn spelling_close(s: Seq<char>, q: int, extra: int) -> Option<int> {
    if extra == 1 {
        if q < s.len() && s[q] == ':' {
            line_close(s, q + 1)
        } else {
            None
        }
    } else {
        line_close(s, q)
    }
}

/// The end of the text or a consumed newline at `q`.
pub open spec fn line_close(s: Seq<char>, q: int) -> Option<int> {
    if q == s.len() {
        Some(q)
    } else if 0 <= q < s.len() && s[q] == '\n' {
        Some(q + 1)
    } else {
        None
    }
}

/// The first marker match at or after `i` in the window starting at `lo`:
/// its start and end positions.
pub open spec fn find_marker_from(
    s: Seq<char>,
    style: MarkerStyle,
    w1: Seq<char>,
    w2: Seq<char>,
    lo: int,
    i: int,
) -> Option<(int, int)>
    decreases s.len() - i,
{
    if !(0 <= lo <= i <= s.len()) {
        None
    } else {
        match marker_match_end(s, style, w1, w2, lo, i) {
            Some(e) => Some((i, e)),
            None => if i < s.len() {
                find_marker_from(s, style, w1, w2, lo, i + 1)
            } else {
                None
            },
        }
    }
}

/// The start/end ranges of every marker match, scanning each next match in
/// the remainder window that starts where the previous match ended.
pub open spec fn marker_ranges_from(
    s: Seq<char>,
    style: MarkerStyle,
    w1: Seq<char>,
    w2: Seq<char>,
    lo: int,
) -> Seq<(int, int)>
    decreases s.len() - lo,
{
    if !(0 <= lo <= s.len()) {
        Seq::empty()
    } else {
        match find_marker_from(s, style, w1, w2, lo, lo) {
            None => Seq::empty(),
            Some((st, en)) => if lo < en <= s.len() {
                seq![(st, en)] + marker_ranges_from(s, style, w1, w2, en)
            } else {
                Seq::empty()
            },
        }
    }
}

/// A marker match ends past the position where it starts, and within the
/// text.
pub proof fn lemma_marker_match_end_bounds(
    s: Seq<char>,
    style: MarkerStyle,
    w1: Seq<char>,
    w2: Seq<char>,
    lo: int,
    i: int,
)
    requires
        wf_keyword(w1),
        wf_keyword(w2),
        marker_match_end(s, style, w1, w2, lo, i) is Some,
    ensures
        i < marker_match_end(s, style, w1, w2, lo, i)->0 <= s.len(),
{
    let a = if i < s.len() && s[i] == '\n' {
        i + 1
    } else {
        i
    };
    lemma_wsp_end_to_bounds(s, a, s.len() as int);
    let w = wsp_end_to(s, a, s.len() as int);
    lemma_hash_end_to_bounds(s, w, s.len() as int);
}

/// Exec check: does a marker match start at `i`, and where does it end?
pub fn marker_match_at(v: &Vec<char>, m: &SectionMarker, lo: usize, i: usize) -> (r: Option<usize>)
    requires
        lo <= i <= v@.len(),
        m.wf(),
    ensures
        match r {
            Some(e) => marker_match_end(v@, m.style, m.word@, m.word_caps@, lo as int, i as int)
                == Some(e as int),
            None => marker_match_end(v@, m.style, m.word@, m.word_caps@, lo as int, i as int)
                is None,
        },
{
    let n = v.len();
    if !(i == lo || (i < n && v[i] == '\n')) {
        return None;
    }
    let a = if i < n && v[i] == '\n' {
        i + 1
    } else {
        i
    };
    let w = crate::scan::scan_wsp(v, a, n);
    let p: usize;
    let extra: bool;
    match m.style {
        MarkerStyle::Header => {
            let h = crate::scan::scan_hashes(v, w, n);
            if h == w {
                return None;
            }
            if !(h < n && v[h] == ' ') {
                return None;
            }
            p = h + 1;
            extra = false;
        },
        MarkerStyle::InlineColon => {
            p = w;
            extra = true;
        },
    }
    let extra_n: usize = if extra {
        1
    } else {
        0
    };
    proof {
        assert(marker_match_end(v@, m.style, m.word@, m.word_caps@, lo as int, i as int)
            == keyword_tail_end(v@, m.word@, m.word_caps@, p as int, extra_n as int));
    }
    match spelling_at(v, &m.word, p, extra) {
        Some(e) => Some(e),
        None => spelling_at(v, &m.word_caps, p, extra),
    }
}

/// Exec check of one keyword spelling at `p`, with its closing colon (for
/// inline markers) and line end.
fn spelling_at(v: &Vec<char>, word: &Vec<char>, p: usize, extra: bool) -> (r: Option<usize>)
    requires
        p <= v@.len(),
    ensures
        ({
            let ex: int = if extra {
                1
            } else {
                0
            };
            match r {
                Some(e) => occurs_at(v@, word@, p as int) && spelling_close(
                    v@,
                    p + word@.len(),
                    ex,
                ) == Some(e as int),
                None => !(occurs_at(v@, word@, p as int) && spelling_close(
                    v@,
                    p + word@.len(),
                    ex,
                ) is Some),
            }
        }),
{
    let n = v.len();
    if word.len() > n - p {
        return None;
    }
    let mut k: usize = 0;
    while k < word.len()
        invariant
            n == v@.len(),
            p + word@.len() <= v@.len(),
            k <= word@.len(),
            forall|j: int| 0 <= j < k ==> v@[p + j] == word@[j],
        decreases word@.len() - k,
    {
        if v[p + k] != word[k] {
            proof {
                assert(v@.subrange(p as int, p + word@.len())[k as int] == v@[p + k]);
            }
            return None;
        }
        k = k + 1;
    }
    proof {
        assert(v@.subrange(p as int, p + word@.len()) =~= word@);
    }
    let mut q: usize = p + word.len();
    if extra {
        if q < n && v[q] == ':' {
            q = q + 1;
        } else {
            return None;
        }
    }
    if q == n {
        Some(q)
    } else if v[q] == '\n' {
        Some(q + 1)
    } else {
        None
    }
}

/// Exec search for the first marker match at or after `i`.
pub fn find_marker(v: &Vec<char>, m: &SectionMarker, lo: usize, i: usize) -> (r: Option<
    (usize, usize),
>)
    requires
        lo <= i <= v@.len(),
        m.wf(),
    ensures
        match r {
            Some((st, en)) => find_marker_from(v@, m.style, m.word@, m.word_caps@, lo as int, i as int)
                == Some((st as int, en as int)) && lo <= i <= st < en <= v@.len(),
            None => find_marker_from(v@, m.style, m.word@, m.word_caps@, lo as int, i as int)
                is None,
        },
{
    let n = v.len();
    let mut j: usize = i;
    loop
        invariant
            lo <= i <= j <= n,
            n == v@.len(),
            m.wf(),
            find_marker_from(v@, m.style, m.word@, m.word_caps@, lo as int, i as int)
                == find_marker_from(v@, m.style, m.word@, m.word_caps@, lo as int, j as int),
        decreases n - j,
    {
        match marker_match_at(v, m, lo, j) {
            Some(e) => {
                proof {
                    lemma_marker_match_end_bounds(
                        v@,
                        m.style,
                        m.word@,
                        m.word_caps@,
                        lo as int,
                        j as int,
                    );
                }
                return Some((j, e));
            },
            None => {
                if j == n {
                    return None;
                }
                j = j + 1;
            },
        }
    }
}

/// Exec collection of every marker range, as
/// [`marker_ranges_from`] describes.
pub fn collect_marker_ranges(v: &Vec<char>, m: &SectionMarker) -> (r: Vec<(usize, usize)>)
    requires
        m.wf(),
    ensures
        r@.len() == marker_ranges_from(v@, m.style, m.word@, m.word_caps@, 0).len(),
        forall|k: int| #![trigger r@[k]]
            0 <= k < r@.len() ==> marker_ranges_from(v@, m.style, m.word@, m.word_caps@, 0)[k]
                == ((r@[k].0 as int, r@[k].1 as int)),
{
    let mut out: Vec<(usize, usize)> = Vec::new();
    let mut lo: usize = 0;
    let n = v.len();
    loop
        invariant
            lo <= n,
            n == v@.len(),
            m.wf(),
            marker_ranges_from(v@, m.style, m.word@, m.word_caps@, 0) == out@.map_values(
                |p: (usize, usize)| (p.0 as int, p.1 as int),
            ) + marker_ranges_from(v@, m.style, m.word@, m.word_caps@, lo as int),
        decreases n - lo,
    {
        match find_marker(v, m, lo, lo) {
            None => {
                proof {
                    assert(out@.map_values(|p: (usize, usize)| (p.0 as int, p.1 as int))
                        + marker_ranges_from(v@, m.style, m.word@, m.word_caps@, lo as int)
                        =~= out@.map_values(|p: (usize, usize)| (p.0 as int, p.1 as int)));
                }
                return out;
            },
            Some((st, en)) => {
                let ghost prev = out@.map_values(|p: (usize, usize)| (p.0 as int, p.1 as int));
                out.push((st, en));
                proof {
                    assert(out@.map_values(|p: (usize, usize)| (p.0 as int, p.1 as int)) =~= prev
                        + seq![(st as int, en as int)]);
                    assert(prev + marker_ranges_from(
                        v@,
                        m.style,
                        m.word@,
                        m.word_caps@,
                        lo as int,
                    ) =~= (prev + seq![(st as int, en as int)]) + marker_ranges_from(
                        v@,
                        m.style,
                        m.word@,
                        m.word_caps@,
                        en as int,
                    ));
                }
                lo = en;
            },
        }
    }
}

/// Whether a section-end match starts at `q`: a newline followed, possibly
/// after whitespace, by a header line or a second newline (a blank line).
pub open spec fn section_end_at(s: Seq<char>, q: int) -> bool {
    &&& 0 <= q < s.len()
    &&& s[q] == '\n'
    &&& exists|r: int|
        q < r < s.len() && (s[r] == '#' || s[r] == '\n') && (forall|k: int|
            q + 1 <= k < r ==> is_wsp(#[trigger] s[k]))
}

/// The first section-end match at or after `i`, or the end of the text.
pub open spec fn find_section_end(s: Seq<char>, i: int) -> int
    decreases s.len() - i,
{
    if !(0 <= i <= s.len()) {
        s.len() as int
    } else if i == s.len() {
        i
    } else if section_end_at(s, i) {
        i
    } else {
        find_section_end(s, i + 1)
    }
}

/// The section end lies between `i` and the end of the text.
pub proof fn lemma_find_section_end_bounds(s: Seq<char>, i: int)
    requires
        0 <= i <= s.len(),
    ensures
        i <= find_section_end(s, i) <= s.len(),
    decreases s.len() - i,
{
    if i < s.len() && !section_end_at(s, i) {
        lemma_find_section_end_bounds(s, i + 1);
    }
}

/// Exec check of [`section_end_at`].
fn is_section_end_at(v: &Vec<char>, q: usize) -> (b: bool)
    requires
        q < v@.len(),
    ensures
        b == section_end_at(v@, q as int),
{
    let n = v.len();
    if v[q] != '\n' {
        return false;
    }
    let mut r: usize = q + 1;
    while r < n && is_space(v[r]) && v[r] != '\n'
        invariant
            q < r <= n,
            n == v@.len(),
            v@[q as int] == '\n',
            forall|k: int| q + 1 <= k < r ==> is_wsp(#[trigger] v@[k]),
            forall|k: int| q + 1 <= k < r ==> v@[k] != '\n',
        decreases n - r,
    {
        r = r + 1;
    }
    if r < n && (v[r] == '#' || v[r] == '\n') {
        proof {
            assert(section_end_at(v@, q as int));
        }
        true
    } else {
        proof {
            assert forall|rr: int|
                q < rr < v@.len() && (v@[rr] == '#' || v@[rr] == '\n') implies !(forall|k: int|
                q + 1 <= k < rr ==> is_wsp(#[trigger] v@[k])) by {
                if forall|k: int| q + 1 <= k < rr ==> is_wsp(#[trigger] v@[k]) {
                    if rr < r {
                        assert(v@[rr] != '\n');
                        assert(is_wsp(v@[rr]));
                        assert(false);
                    } else {
                        if r < v@.len() {
                            assert(!(is_wsp(v@[r as int]) && v@[r as int] != '\n'));
                            if rr > r {
                                assert(is_wsp(v@[r as int]));
                                assert(v@[r as int] == '\n');
                                assert(false);
                            } else {
                                assert(rr == r);
                                assert(v@[rr] != '#' && v@[rr] != '\n');
                                assert(false);
                            }
                        } else {
                            assert(false);
                        }
                    }
                }
            }
        }
        false
    }
}

/// Exec search for the first section end at or after `i`.
pub fn scan_section_end(v: &Vec<char>, i: usize) -> (r: usize)
    requires
        i <= v@.len(),
    ensures
        r == find_section_end(v@, i as int),
        i <= r <= v@.len(),
{
    let n = v.len();
    let mut j: usize = i;
    loop
        invariant
            i <= j <= n,
            n == v@.len(),
            find_section_end(v@, i as int) == find_section_end(v@, j as int),
        decreases n - j,
    {
        if j == n {
            return j;
        }
        if is_section_end_at(v, j) {
            return j;
        }
        j = j + 1;
    }
}

} // verus!
