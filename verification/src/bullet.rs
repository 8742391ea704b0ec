//! Bullet recognition inside one annotation section.
//!
//! List entries use either `-` or `*` as their line prefix; a section must
//! use one style throughout. A bullet match starts at the newline before
//! the entry (or at the start of the section), covers the indentation, and
//! ends just after the bullet character.

use vstd::prelude::*;
use crate::text::is_wsp;
use crate::scan::wsp_end_to;
use crate::scan::lemma_wsp_end_to_bounds;

verus! {

/// The two accepted bullet styles.
#[derive(Debug, Clone, Copy, PartialEq, Eq, Structural)]
pub enum BulletKind {
    Asterisk,
    Hyphen,
}

impl BulletKind {
    /// The line-prefix character of this style.
    pub open spec fn spec_marker_char(self) -> char {
        match self {
            BulletKind::Asterisk => '*',
            BulletKind::Hyphen => '-',
        }
    }

    /// Executable [`BulletKind::spec_marker_char`].
    #[verifier::when_used_as_spec(spec_marker_char)]
    pub fn marker_char(self) -> (c: char)
        ensures
            c == self.spec_marker_char(),
    {
        match self {
            BulletKind::Asterisk => '*',
            BulletKind::Hyphen => '-',
        }
    }
}

/// If a bullet match with prefix `b` starts at `i` within the section
/// window `[lo, hi)`, the position just after the bullet character.
pub open spec fn bullet_match_end(s: Seq<char>, b: char, lo: int, hi: int, i: int) -> Option<int> {
    if !(0 <= lo <= i <= hi <= s.len()) {
        None
    } else if !(i == lo || (i < hi && s[i] == '\n')) {
        None
    } else {
        let a = if i < hi && s[i] == '\n' {
            i + 1
        } else {
            i
        };
        let w = wsp_end_to(s, a, hi);
        if w < hi && s[w] == b {
            Some(w + 1)
        } else {
            None
        }
    }
}

/// The first bullet match at or after `i` in the window `[lo, hi)`: its
/// start and end positions.
pub open spec fn find_bullet_from(s: Seq<char>, b: char, lo: int, hi: int, i: int) -> Option<
    (int, int),
>
    decreases hi - i,
{
    if !(0 <= lo <= i <= hi <= s.len()) {
        None
    } else {
        match bullet_match_end(s, b, lo, hi, i) {
            Some(e) => Some((i, e)),
            None => if i < hi {
                find_bullet_from(s, b, lo, hi, i + 1)
            } else {
                None
            },
        }
    }
}

/// The start/end positions of the successive bullet matches found from
/// `p`, each next search resuming where the previous match ended.
pub open spec fn bullet_starts(s: Seq<char>, b: char, lo: int, hi: int, p: int) -> Seq<(int, int)>
    decreases hi - p,
{
    if !(0 <= lo <= p <= hi <= s.len()) {
        Seq::empty()
    } else {
        match find_bullet_from(s, b, lo, hi, p) {
            None => Seq::empty(),
            Some((st, en)) => if p < en <= hi {
                seq![(st, en)] + bullet_starts(s, b, lo, hi, en)
            } else {
                Seq::empty()
            },
        }
    }
}

/// A bullet match ends past where it starts and within the window.
pub proof fn lemma_bullet_match_end_bounds(s: Seq<char>, b: char, lo: int, hi: int, i: int)
    requires
        b != '\n',
        !is_wsp(b),
        bullet_match_end(s, b, lo, hi, i) is Some,
    ensures
        i < bullet_match_end(s, b, lo, hi, i)->0 <= hi,
{
    let a = if i < hi && s[i] == '\n' {
        i + 1
    } else {
        i
    };
    lemma_wsp_end_to_bounds(s, a, hi);
}

/// Exec check: does a bullet match start at `i`, and where does it end?
fn bullet_match_at(v: &Vec<char>, b: char, lo: usize, hi: usize, i: usize) -> (r: Option<usize>)
    requires
        lo <= i <= hi <= v@.len(),
    ensures
        match r {
            Some(e) => bullet_match_end(v@, b, lo as int, hi as int, i as int) == Some(e as int),
            None => bullet_match_end(v@, b, lo as int, hi as int, i as int) is None,
        },
{
    if !(i == lo || (i < hi && v[i] == '\n')) {
        return None;
    }
    let a = if i < hi && v[i] == '\n' {
        i + 1
    } else {
        i
    };
    let w = crate::scan::scan_wsp(v, a, hi);
    if w < hi && v[w] == b {
        Some(w + 1)
    } else {
        None
    }
}

/// Exec search for the first bullet match at or after `i`.
pub fn find_bullet(v: &Vec<char>, b: char, lo: usize, hi: usize, i: usize) -> (r: Option<
    (usize, usize),
>)
    requires
        lo <= i <= hi <= v@.len(),
        b != '\n',
        !is_wsp(b),
    ensures
        match r {
            Some((st, en)) => find_bullet_from(v@, b, lo as int, hi as int, i as int) == Some(
                (st as int, en as int),
            ) && i <= st < en <= hi,
            None => find_bullet_from(v@, b, lo as int, hi as int, i as int) is None,
        },
{
    let mut j: usize = i;
    loop
        invariant
            lo <= i <= j <= hi <= v@.len(),
            b != '\n',
            !is_wsp(b),
            find_bullet_from(v@, b, lo as int, hi as int, i as int) == find_bullet_from(
                v@,
                b,
                lo as int,
                hi as int,
                j as int,
            ),
        decreases hi - j,
    {
        match bullet_match_at(v, b, lo, hi, j) {
            Some(e) => {
                proof {
                    lemma_bullet_match_end_bounds(v@, b, lo as int, hi as int, j as int);
                }
                return Some((j, e));
            },
            None => {
                if j == hi {
                    return None;
                }
                j = j + 1;
            },
        }
    }
}

/// Exec collection of every bullet match in the window, as
/// [`bullet_starts`] describes.
pub fn collect_bullets(v: &Vec<char>, b: char, lo: usize, hi: usize) -> (r: Vec<(usize, usize)>)
    requires
        lo <= hi <= v@.len(),
        b != '\n',
        !is_wsp(b),
    ensures
        r@.len() == bullet_starts(v@, b, lo as int, hi as int, lo as int).len(),
        forall|k: int| #![trigger r@[k]]
            0 <= k < r@.len() ==> bullet_starts(v@, b, lo as int, hi as int, lo as int)[k] == ((
                r@[k].0 as int,
                r@[k].1 as int,
            )),
        forall|k: int| #![trigger r@[k]]
            0 <= k < r@.len() ==> lo <= r@[k].0 < r@[k].1 <= hi,
        forall|k: int| #![trigger r@[k]] 0 <= k < r@.len() - 1 ==> r@[k].1 <= r@[k + 1].0,
{
    let mut out: Vec<(usize, usize)> = Vec::new();
    let mut p: usize = lo;
    loop
        invariant
            lo <= p <= hi <= v@.len(),
            b != '\n',
            !is_wsp(b),
            bullet_starts(v@, b, lo as int, hi as int, lo as int) == out@.map_values(
                |q: (usize, usize)| (q.0 as int, q.1 as int),
            ) + bullet_starts(v@, b, lo as int, hi as int, p as int),
            forall|k: int| #![trigger out@[k]]
                0 <= k < out@.len() ==> lo <= out@[k].0 < out@[k].1 <= hi,
            forall|k: int| #![trigger out@[k]]
                0 <= k < out@.len() - 1 ==> out@[k].1 <= out@[k + 1].0,
            out@.len() > 0 ==> out@[out@.len() - 1].1 <= p,
        decreases hi - p,
    {
        match find_bullet(v, b, lo, hi, p) {
            None => {
                proof {
                    assert(out@.map_values(|q: (usize, usize)| (q.0 as int, q.1 as int))
                        + bullet_starts(v@, b, lo as int, hi as int, p as int)
                        =~= out@.map_values(|q: (usize, usize)| (q.0 as int, q.1 as int)));
                }
                return out;
            },
            Some((st, en)) => {
                let ghost prev = out@.map_values(|q: (usize, usize)| (q.0 as int, q.1 as int));
                out.push((st, en));
                proof {
                    assert(out@.map_values(|q: (usize, usize)| (q.0 as int, q.1 as int)) =~= prev
                        + seq![(st as int, en as int)]);
                    assert(prev + bullet_starts(v@, b, lo as int, hi as int, p as int) =~= (prev
                        + seq![(st as int, en as int)]) + bullet_starts(
                        v@,
                        b,
                        lo as int,
                        hi as int,
                        en as int,
                    ));
                }
                p = en;
            },
        }
    }
}

} // verus!
