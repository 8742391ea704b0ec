//! The canonical rendering of a requirement section, and the round trip
//! back through the parser.
//!
//! A section rendered from `(name, description)` pairs in the canonical
//! form — a header line, then one `- name: description` line per pair —
//! parses back to exactly those pairs. This is the round-trip law of the
//! annotation grammar.

use vstd::prelude::*;
use crate::bullet::bullet_match_end;
use crate::bullet::bullet_starts;
use crate::bullet::find_bullet_from;
use crate::marker::MarkerStyle;
use crate::marker::find_marker_from;
use crate::marker::find_section_end;
use crate::marker::keyword_tail_end;
use crate::marker::line_close;
use crate::marker::marker_match_end;
use crate::marker::section_end_at;
use crate::marker::spelling_close;
use crate::marker::wf_keyword;
use crate::names::has_name_wsp;
use crate::parse::SpecIssue;
use crate::parse::parse_bodies_spec;
use crate::parse::parse_bullet_spec;
use crate::parse::parse_bullets_spec;
use crate::scan::char_find;
use crate::scan::hash_end_to;
use crate::scan::lemma_char_find_bounds;
use crate::scan::lemma_hash_end_to_bounds;
use crate::scan::lemma_trim_hi_bounds;
use crate::scan::lemma_wsp_end_to_bounds;
use crate::scan::trim_hi;
use crate::scan::trim_lo;
use crate::scan::wsp_end_to;
use crate::text::is_wsp;

verus! {

/// A name fit for rendering: a non-empty single word without a colon, so
/// that the parser's first-colon split recovers it exactly.
pub open spec fn renderable_name(n: Seq<char>) -> bool {
    &&& n.len() > 0
    &&& forall|k: int| 0 <= k < n.len() ==> !is_wsp(#[trigger] n[k]) && n[k] != ':'
}

/// A description fit for rendering: non-empty, on one line, and already
/// trimmed, so that the parser's trimming recovers it exactly.
pub open spec fn renderable_desc(d: Seq<char>) -> bool {
    &&& d.len() > 0
    &&& !is_wsp(d[0])
    &&& !is_wsp(d[d.len() - 1])
    &&& forall|k: int| 0 <= k < d.len() ==> (#[trigger] d[k]) != '\n'
}

/// Every pair of the list fit for rendering.
pub open spec fn renderable(ps: Seq<(Seq<char>, Seq<char>)>) -> bool {
    forall|k: int|
        0 <= k < ps.len() ==> renderable_name((#[trigger] ps[k]).0) && renderable_desc(ps[k].1)
}

/// One rendered bullet line: a newline, the bullet, the name, a colon and
/// the description.
pub open spec fn render_bullet(p: (Seq<char>, Seq<char>)) -> Seq<char> {
    seq!['\n', '-', ' '] + p.0 + seq![':', ' '] + p.1
}

/// The rendered bullet lines of `ps[k..]`.
pub open spec fn render_bullets(ps: Seq<(Seq<char>, Seq<char>)>, k: int) -> Seq<char>
    decreases ps.len() - k,
{
    if k < 0 || k >= ps.len() {
        Seq::empty()
    } else {
        render_bullet(ps[k]) + render_bullets(ps, k + 1)
    }
}

/// A whole rendered requirement section: the header line, then the
/// bullets.
pub open spec fn render_section(w: Seq<char>, ps: Seq<(Seq<char>, Seq<char>)>) -> Seq<char> {
    seq!['#', ' '] + w + render_bullets(ps, 0)
}

/// When no marker match starts anywhere at or after `i`, the search
/// finds none.
proof fn lemma_no_marker_when(
    s: Seq<char>,
    style: MarkerStyle,
    w1: Seq<char>,
    w2: Seq<char>,
    lo: int,
    i: int,
)
    requires
        0 <= lo <= i <= s.len(),
        forall|j: int| i <= j <= s.len() ==> marker_match_end(s, style, w1, w2, lo, j) is None,
    ensures
        find_marker_from(s, style, w1, w2, lo, i) is None,
    decreases s.len() - i,
{
    if i < s.len() {
        lemma_no_marker_when(s, style, w1, w2, lo, i + 1);
    }
}

/// When no section end starts anywhere at or after `i`, the search runs
/// to the end of the text.
proof fn lemma_no_section_end_when(s: Seq<char>, i: int)
    requires
        0 <= i <= s.len(),
        forall|j: int| i <= j < s.len() ==> !section_end_at(s, j),
    ensures
        find_section_end(s, i) == s.len(),
    decreases s.len() - i,
{
    if i < s.len() {
        lemma_no_section_end_when(s, i + 1);
    }
}

/// When no bullet match starts anywhere at or after `i`, the search
/// finds none.
proof fn lemma_no_bullet_when(s: Seq<char>, b: char, lo: int, hi: int, i: int)
    requires
        0 <= lo <= i <= hi <= s.len(),
        forall|j: int| i <= j <= hi ==> bullet_match_end(s, b, lo, hi, j) is None,
    ensures
        find_bullet_from(s, b, lo, hi, i) is None,
    decreases hi - i,
{
    if i < hi {
        lemma_no_bullet_when(s, b, lo, hi, i + 1);
    }
}

/// When the first bullet match at or after `p` starts at `q`, the search
/// finds exactly it.
proof fn lemma_first_bullet_at(s: Seq<char>, b: char, lo: int, hi: int, p: int, q: int)
    requires
        0 <= lo <= p <= q <= hi <= s.len(),
        forall|j: int| p <= j < q ==> bullet_match_end(s, b, lo, hi, j) is None,
        bullet_match_end(s, b, lo, hi, q) is Some,
    ensures
        find_bullet_from(s, b, lo, hi, p) == Some((q, bullet_match_end(s, b, lo, hi, q)->0)),
    decreases q - p,
{
    if p < q {
        lemma_first_bullet_at(s, b, lo, hi, p + 1, q);
    }
}

/// `wsp_end_to` lands exactly on the first non-whitespace character.
proof fn lemma_wsp_end_hits(s: Seq<char>, i: int, hi: int, p: int)
    requires
        0 <= i <= p <= hi <= s.len(),
        forall|j: int| i <= j < p ==> is_wsp(#[trigger] s[j]),
        p < hi ==> !is_wsp(s[p]),
        p == hi || p < hi,
    ensures
        p < hi ==> wsp_end_to(s, i, hi) == p,
        p == hi ==> wsp_end_to(s, i, hi) == hi,
{
    lemma_wsp_end_to_bounds(s, i, hi);
    let r = wsp_end_to(s, i, hi);
    if p < hi {
        if r < p {
            assert(is_wsp(s[r]));
        }
        if r > p {
            assert(!is_wsp(s[p]));
            assert(forall|k: int| i <= k < r ==> is_wsp(#[trigger] s[k]));
        }
    } else {
        if r < hi {
            assert(is_wsp(s[r]));
        }
    }
}

/// `char_find` lands exactly on the first occurrence of the character.
proof fn lemma_char_find_hits(s: Seq<char>, c: char, i: int, hi: int, p: int)
    requires
        0 <= i <= p <= hi <= s.len(),
        forall|j: int| i <= j < p ==> (#[trigger] s[j]) != c,
        p < hi ==> s[p] == c,
    ensures
        p < hi ==> char_find(s, c, i, hi) == p,
        p == hi ==> char_find(s, c, i, hi) == hi,
{
    lemma_char_find_bounds(s, c, i, hi);
    let r = char_find(s, c, i, hi);
    if p < hi {
        if r < p {
            assert(s[r] != c);
        }
        if r > p {
            assert(forall|k: int| i <= k < r ==> (#[trigger] s[k]) != c);
        }
    } else {
        if r < hi {
            assert(s[r] == c);
        }
    }
}

/// `trim_hi` lands exactly after the last non-whitespace character.
proof fn lemma_trim_hi_hits(s: Seq<char>, lo: int, hi: int, p: int)
    requires
        0 <= lo <= p <= hi <= s.len(),
        forall|j: int| p <= j < hi ==> is_wsp(#[trigger] s[j]),
        p > lo ==> !is_wsp(s[p - 1]),
    ensures
        trim_hi(s, lo, hi) == p,
{
    lemma_trim_hi_bounds(s, lo, hi);
    let r = trim_hi(s, lo, hi);
    if r < p {
        assert(is_wsp(s[p - 1]));
    }
    if r > p {
        assert(is_wsp(s[r - 1]));
    }
}

/// The character layout of one rendered bullet at position `q` of the
/// text, and the suffix property for the remaining bullets.
proof fn lemma_render_segment(s: Seq<char>, ps: Seq<(Seq<char>, Seq<char>)>, k: int, q: int)
    requires
        renderable(ps),
        0 <= k < ps.len(),
        0 <= q <= s.len(),
        s.subrange(q, s.len() as int) == render_bullets(ps, k),
    ensures
        ({
            let n = ps[k].0;
            let d = ps[k].1;
            let nq = q + 5 + n.len() + d.len();
            &&& nq <= s.len()
            &&& s[q] == '\n'
            &&& s[q + 1] == '-'
            &&& s[q + 2] == ' '
            &&& s.subrange(q + 3, q + 3 + n.len()) == n
            &&& s[q + 3 + n.len()] == ':'
            &&& s[q + 4 + n.len()] == ' '
            &&& s.subrange(q + 5 + n.len(), nq) == d
            &&& s.subrange(nq, s.len() as int) == render_bullets(ps, k + 1)
            &&& forall|j: int| q < j < nq ==> (#[trigger] s[j]) != '\n'
        }),
{
    let n = ps[k].0;
    let d = ps[k].1;
    let rb = render_bullet(ps[k]);
    let rest = render_bullets(ps, k + 1);
    let nq = q + 5 + n.len() + d.len();
    assert(render_bullets(ps, k) == rb + rest);
    assert(rb.len() == 5 + n.len() + d.len());
    assert forall|i: int| 0 <= i < s.len() - q implies s[q + i] == render_bullets(ps, k)[i] by {
        assert(s.subrange(q, s.len() as int)[i] == s[q + i]);
    }
    assert(rb[0] == '\n');
    assert(rb[1] == '-');
    assert(rb[2] == ' ');
    assert forall|i: int| 0 <= i < n.len() implies rb[3 + i] == n[i] by {
        assert((seq!['\n', '-', ' '] + n)[3 + i] == n[i]);
    }
    assert(rb[3 + n.len() as int] == ':');
    assert(rb[4 + n.len() as int] == ' ');
    assert forall|i: int| 0 <= i < d.len() implies rb[5 + n.len() + i] == d[i] by {
    }
    assert(s.len() - q == rb.len() + rest.len());
    assert forall|i: int| 0 <= i < rb.len() implies s[q + i] == rb[i] by {
        assert(s.subrange(q, s.len() as int)[i] == s[q + i]);
        assert((rb + rest)[i] == rb[i]);
    }
    assert(s[q] == rb[0]);
    assert(s[q + 1] == rb[1]);
    assert(s[q + 2] == rb[2]);
    assert(s[q + 3 + n.len()] == rb[3 + n.len() as int]);
    assert(s[q + 4 + n.len()] == rb[4 + n.len() as int]);
    assert forall|j: int| 0 <= j < n.len() implies s.subrange(q + 3, q + 3 + n.len() as int)[j]
        == n[j] by {
        assert(s.subrange(q, s.len() as int)[3 + j] == s[q + 3 + j]);
        assert((rb + rest)[3 + j] == rb[3 + j]);
        assert(rb[3 + j] == n[j]);
        assert(s.subrange(q + 3, q + 3 + n.len() as int)[j] == s[q + 3 + j]);
    }
    assert(s.subrange(q + 3, q + 3 + n.len()) =~= n);
    assert forall|j: int| 0 <= j < d.len() implies s.subrange(q + 5 + n.len() as int, nq)[j]
        == d[j] by {
        let i = 5 + n.len() as int + j;
        assert(s.subrange(q, s.len() as int)[i] == s[q + i]);
        assert((rb + rest)[i] == rb[i]);
        assert(rb[i] == d[j]);
        assert(s.subrange(q + 5 + n.len() as int, nq)[j] == s[q + i]);
    }
    assert(s.subrange(q + 5 + n.len(), nq) =~= d);
    assert forall|j: int| 0 <= j < rest.len() implies s.subrange(nq, s.len() as int)[j]
        == rest[j] by {
        let i = rb.len() as int + j;
        assert(s.subrange(q, s.len() as int)[i] == s[q + i]);
        assert((rb + rest)[i] == rest[j]);
        assert(s.subrange(nq, s.len() as int)[j] == s[q + i]);
    }
    assert(s.subrange(nq, s.len() as int) =~= rest);
    assert forall|j: int| q < j < nq implies (#[trigger] s[j]) != '\n' by {
        let i = j - q;
        assert(s.subrange(q, s.len() as int)[i] == s[q + i]);
        assert((rb + rest)[i] == rb[i]);
        assert(s[j] == rb[i]);
        if 3 <= i < 3 + n.len() {
            assert(rb[i] == n[i - 3]);
            assert(!is_wsp(n[i - 3]));
        } else if 5 + n.len() <= i {
            assert(rb[i] == d[i - 5 - n.len()]);
        }
    }
}

/// Every newline in the rendered bullets region is immediately followed
/// by a bullet character.
proof fn lemma_render_newlines(s: Seq<char>, ps: Seq<(Seq<char>, Seq<char>)>, k: int, q: int)
    requires
        renderable(ps),
        0 <= k <= ps.len(),
        0 <= q <= s.len(),
        s.subrange(q, s.len() as int) == render_bullets(ps, k),
    ensures
        forall|j: int|
            q <= j < s.len() ==> ((#[trigger] s[j]) == '\n' ==> j + 1 < s.len() && s[j + 1]
                == '-'),
        q == s.len() || k < ps.len(),
    decreases ps.len() - k,
{
    if k >= ps.len() {
        assert(render_bullets(ps, k).len() == 0);
        assert(q == s.len());
    } else {
        lemma_render_segment(s, ps, k, q);
        let nq = q + 5 + ps[k].0.len() + ps[k].1.len();
        lemma_render_newlines(s, ps, k + 1, nq);
        assert forall|j: int|
            q <= j < s.len() && (#[trigger] s[j]) == '\n' implies j + 1 < s.len() && s[j + 1]
            == '-' by {
            if j < nq {
                if j > q {
                    assert(s[j] != '\n');
                }
            }
        }
    }
}

/// Parsing one rendered bullet body ` name: description` recovers the
/// name, the description and the trimmed range.
proof fn lemma_parse_rendered_body(s: Seq<char>, b: int, e: int, n: Seq<char>, d: Seq<char>)
    requires
        0 <= b < e <= s.len(),
        s[b] == ' ',
        e - b == 3 + n.len() + d.len(),
        s.subrange(b + 1, b + 1 + n.len()) == n,
        s[b + 1 + n.len()] == ':',
        s[b + 2 + n.len()] == ' ',
        s.subrange(b + 3 + n.len(), e) == d,
        renderable_name(n),
        renderable_desc(d),
    ensures
        parse_bullet_spec(s, b, e) == Ok::<_, SpecIssue>((n, d, (b + 1, e))),
{
    assert forall|j: int| b + 1 <= j < b + 1 + n.len() implies !is_wsp(#[trigger] s[j]) && s[j]
        != ':' by {
        assert(s.subrange(b + 1, b + 1 + n.len())[j - b - 1] == s[j]);
        assert(n[j - b - 1] == s[j]);
    }
    assert forall|j: int| b + 3 + n.len() <= j < e implies s[j] == d[j - b - 3 - n.len()] by {
        assert(s.subrange(b + 3 + n.len(), e)[j - b - 3 - n.len()] == s[j]);
    }
    // the leading space is trimmed, the name starts right after
    lemma_wsp_end_hits(s, b, e, b + 1);
    assert(trim_lo(s, b, e) == b + 1);
    // the description's last character closes the trimmed range
    assert(!is_wsp(s[e - 1]));
    lemma_trim_hi_hits(s, b + 1, e, e);
    assert(trim_hi(s, b + 1, e) == e);
    // the first colon separates the name
    lemma_char_find_hits(s, ':', b + 1, e, b + 1 + n.len());
    assert(char_find(s, ':', b + 1, e) == b + 1 + n.len());
    let c = b + 1 + n.len();
    assert(s.subrange(b + 1, c) == n);
    assert(!has_name_wsp(n)) by {
        if has_name_wsp(n) {
            let j = choose|j: int| 0 <= j < n.len() && crate::names::name_wsp(n[j]);
            assert(is_wsp(n[j]));
        }
    }
    // the space after the colon is trimmed off the description
    lemma_wsp_end_hits(s, c + 1, e, b + 3 + n.len());
    assert(trim_lo(s, c + 1, e) == b + 3 + n.len());
    assert(!is_wsp(s[b + 3 + n.len()])) by {
        assert(s[b + 3 + n.len()] == d[0]);
    }
    lemma_trim_hi_hits(s, b + 3 + n.len(), e, e);
    assert(s.subrange(b + 3 + n.len(), e) == d);
}

/// Appending one bullet match in front shifts the body parse by one.
proof fn lemma_bodies_shift(
    s: Seq<char>,
    m: (int, int),
    ms: Seq<(int, int)>,
    j: int,
    hi: int,
)
    requires
        0 <= j <= ms.len(),
    ensures
        parse_bodies_spec(s, seq![m] + ms, j + 1, hi) == parse_bodies_spec(s, ms, j, hi),
    decreases ms.len() - j,
{
    let ms2 = seq![m] + ms;
    if j < ms.len() {
        lemma_bodies_shift(s, m, ms, j + 1, hi);
        assert(ms2[j + 1] == ms[j]);
        if j + 1 < ms.len() {
            assert(ms2[j + 2] == ms[j + 1]);
        }
    }
}

/// The bullets engine: scanning the rendered bullets of `ps[k..]` from
/// position `p` finds one match per bullet, and parsing the bodies
/// between the matches recovers the pairs.
proof fn lemma_bullets_round_trip(
    s: Seq<char>,
    ps: Seq<(Seq<char>, Seq<char>)>,
    k: int,
    lo: int,
    p: int,
    q: int,
)
    requires
        renderable(ps),
        0 <= k < ps.len(),
        0 <= lo < p <= q < s.len(),
        s.subrange(q, s.len() as int) == render_bullets(ps, k),
        forall|j: int| p <= j < q ==> (#[trigger] s[j]) != '\n',
    ensures
        ({
            let ms = bullet_starts(s, '-', lo, s.len() as int, p);
            &&& ms.len() == ps.len() - k
            &&& ms[0] == (q, q + 2)
            &&& parse_bodies_spec(s, ms, 0, s.len() as int) is Ok
            &&& ({
                let ts = parse_bodies_spec(s, ms, 0, s.len() as int)->Ok_0;
                ts.len() == ps.len() - k && (forall|j: int|
                    0 <= j < ts.len() ==> ((#[trigger] ts[j]).0, ts[j].1) == (
                        ps[k + j].0,
                        ps[k + j].1,
                    ))
            })
        }),
    decreases ps.len() - k,
{
    let hi = s.len() as int;
    let n = ps[k].0;
    let d = ps[k].1;
    lemma_render_segment(s, ps, k, q);
    let nq = q + 5 + n.len() + d.len();
    // the first match at or after `p` starts at this bullet's newline
    assert forall|j: int| p <= j < q implies bullet_match_end(s, '-', lo, hi, j) is None by {
        assert(s[j] != '\n');
    }
    assert(s[q + 1] == '-');
    lemma_wsp_end_hits(s, q + 1, hi, q + 1);
    assert(bullet_match_end(s, '-', lo, hi, q) == Some(q + 2));
    lemma_first_bullet_at(s, '-', lo, hi, p, q);
    let ms = bullet_starts(s, '-', lo, hi, p);
    let rest_ms = bullet_starts(s, '-', lo, hi, q + 2);
    assert(ms == seq![(q, q + 2)] + rest_ms);
    if k + 1 < ps.len() {
        // the next bullet's newline opens the next segment
        lemma_render_segment(s, ps, k + 1, nq);
        lemma_bullets_round_trip(s, ps, k + 1, lo, q + 2, nq);
        // this bullet's body runs to the next match
        assert(rest_ms == bullet_starts(s, '-', lo, hi, q + 2));
        assert(rest_ms[0] == (nq, nq + 2)) by {
            assert forall|j: int| q + 2 <= j < nq implies bullet_match_end(
                s,
                '-',
                lo,
                hi,
                j,
            ) is None by {
                assert(s[j] != '\n');
            }
            assert(s[nq + 1] == '-');
            lemma_wsp_end_hits(s, nq + 1, hi, nq + 1);
            assert(bullet_match_end(s, '-', lo, hi, nq) == Some(nq + 2));
            lemma_first_bullet_at(s, '-', lo, hi, q + 2, nq);
        }
        lemma_parse_rendered_body(s, q + 2, nq, n, d);
        lemma_bodies_shift(s, (q, q + 2), rest_ms, 0, hi);
        let rest_ts = parse_bodies_spec(s, rest_ms, 0, hi)->Ok_0;
        let ts = parse_bodies_spec(s, ms, 0, hi)->Ok_0;
        assert(parse_bodies_spec(s, ms, 1, hi) == parse_bodies_spec(s, rest_ms, 0, hi));
        assert(ms[0].1 == q + 2 && ms[1].0 == nq);
        assert(parse_bullet_spec(s, q + 2, nq) == Ok::<_, SpecIssue>((n, d, (q + 3, nq))));
        assert(ts == seq![(n, d, (q + 3, nq))] + rest_ts);
        assert forall|j: int| 0 <= j < ts.len() implies ((#[trigger] ts[j]).0, ts[j].1) == (
            ps[k + j].0,
            ps[k + j].1,
        ) by {
            if j > 0 {
                assert(ts[j] == rest_ts[j - 1]);
            }
        }
    } else {
        // the last bullet's body runs to the end of the text
        assert(s.subrange(nq, hi) == render_bullets(ps, k + 1));
        assert(render_bullets(ps, k + 1).len() == 0);
        assert(nq == hi);
        assert(rest_ms =~= Seq::<(int, int)>::empty()) by {
            assert forall|j: int| q + 2 <= j <= hi implies bullet_match_end(
                s,
                '-',
                lo,
                hi,
                j,
            ) is None by {
                if j < hi {
                    assert(s[j] != '\n');
                }
            }
            lemma_no_bullet_when(s, '-', lo, hi, q + 2);
        }
        lemma_parse_rendered_body(s, q + 2, hi, n, d);
        lemma_bodies_shift(s, (q, q + 2), rest_ms, 0, hi);
        let ts = parse_bodies_spec(s, ms, 0, hi)->Ok_0;
        assert(ms.len() == 1 && ms[0] == (q, q + 2));
        assert(parse_bullet_spec(s, q + 2, hi) == Ok::<_, SpecIssue>((n, d, (q + 3, hi))));
        assert(ts =~= seq![(n, d, (q + 3, hi))]);
    }
}

/// The round-trip law of the annotation grammar: a requirement section
/// rendered from `(name, description)` pairs in the canonical form — a
/// `# Keyword` header line, then one `- name: description` line per pair
/// — parses back, under the same keyword, to exactly those pairs in
/// source order.
/// The header marker of a rendered section matches at the start of the
/// text and nowhere does a second match start at or after the text
/// position `en` when every later newline is followed by a bullet.
proof fn lemma_header_match(s: Seq<char>, w1: Seq<char>, w2: Seq<char>)
    requires
        wf_keyword(w1),
        2 + w1.len() < s.len(),
        s[0] == '#',
        s[1] == ' ',
        crate::text::occurs_at(s, w1, 2),
        s[2 + w1.len() as int] == '\n',
    ensures
        find_marker_from(s, MarkerStyle::Header, w1, w2, 0, 0) == Some(
            (0int, 3 + w1.len() as int),
        ),
{
    let hi = s.len() as int;
    let hdr = 2 + w1.len() as int;
    let en = hdr + 1;
    assert(!is_wsp('#'));
    lemma_wsp_end_hits(s, 0, hi, 0);
    assert(wsp_end_to(s, 0, hi) == 0);
    lemma_hash_end_to_bounds(s, 0, hi);
    let h = hash_end_to(s, 0, hi);
    assert(h >= 1) by {
        if h == 0 {
            assert(s[0] == '#');
        }
    }
    assert(h == 1) by {
        if h > 1 {
            assert(s[1] == '#');
        }
    }
    assert(line_close(s, hdr) == Some(en));
    assert(spelling_close(s, 2 + w1.len() as int, 0) == Some(en));
    assert(keyword_tail_end(s, w1, w2, 2, 0) == Some(en));
    assert(marker_match_end(s, MarkerStyle::Header, w1, w2, 0, 0) == Some(en));
}

/// In a region where every newline is followed by a bullet character, no
/// header marker matches, no section end occurs and no asterisk bullet
/// matches, so the section of a rendered text runs to its end.
proof fn lemma_section_scans(s: Seq<char>, w1: Seq<char>, w2: Seq<char>, en: int)
    requires
        0 <= en < s.len(),
        s[en] == '-',
        forall|j: int|
            en <= j < s.len() ==> ((#[trigger] s[j]) == '\n' ==> j + 1 < s.len() && s[j + 1]
                == '-'),
    ensures
        find_marker_from(s, MarkerStyle::Header, w1, w2, en, en) is None,
        find_section_end(s, en) == s.len(),
        find_bullet_from(s, '*', en, s.len() as int, en) is None,
{
    let hi = s.len() as int;
    assert forall|j: int| en <= j <= hi implies marker_match_end(
        s,
        MarkerStyle::Header,
        w1,
        w2,
        en,
        j,
    ) is None by {
        if j == en || (j < hi && s[j] == '\n') {
            let a = if j < hi && s[j] == '\n' {
                j + 1
            } else {
                j
            };
            assert(s[a] == '-');
            lemma_wsp_end_hits(s, a, hi, a);
            lemma_hash_end_to_bounds(s, a, hi);
            assert(hash_end_to(s, a, hi) == a) by {
                if hash_end_to(s, a, hi) > a {
                    assert(s[a] == '#');
                }
            }
        }
    }
    lemma_no_marker_when(s, MarkerStyle::Header, w1, w2, en, en);
    assert forall|q: int| en <= q < hi implies !section_end_at(s, q) by {
        if section_end_at(s, q) {
            assert(s[q] == '\n');
            assert(s[q + 1] == '-');
            let r = choose|r: int|
                q < r < s.len() && (s[r] == '#' || s[r] == '\n') && (forall|k2: int|
                    q + 1 <= k2 < r ==> is_wsp(#[trigger] s[k2]));
            if r == q + 1 {
                assert(s[q + 1] == '#' || s[q + 1] == '\n');
            } else {
                assert(is_wsp(s[q + 1]));
            }
        }
    }
    lemma_no_section_end_when(s, en);
    assert forall|j: int| en <= j <= hi implies bullet_match_end(s, '*', en, hi, j) is None by {
        if j == en || (j < hi && s[j] == '\n') {
            let a = if j < hi && s[j] == '\n' {
                j + 1
            } else {
                j
            };
            assert(s[a] == '-');
            lemma_wsp_end_hits(s, a, hi, a);
        }
    }
    lemma_no_bullet_when(s, '*', en, hi, en);
}

/// The scan results on a rendered section: the marker matches once at
/// the start, the section runs to the end of the text, no asterisk
/// bullet occurs, and the first hyphen bullet matches at the section
/// start.
#[verifier::spinoff_prover]
proof fn lemma_render_prelude(w1: Seq<char>, w2: Seq<char>, ps: Seq<(Seq<char>, Seq<char>)>)
    requires
        wf_keyword(w1),
        wf_keyword(w2),
        renderable(ps),
        ps.len() > 0,
    ensures
        ({
            let s = render_section(w1, ps);
            let hdr = 2 + w1.len() as int;
            let en = hdr + 1;
            let hi = s.len() as int;
            &&& s.len() == hdr + render_bullets(ps, 0).len()
            &&& en < hi
            &&& s.subrange(hdr, hi) == render_bullets(ps, 0)
            &&& find_marker_from(s, MarkerStyle::Header, w1, w2, 0, 0) == Some((0int, en))
            &&& find_marker_from(s, MarkerStyle::Header, w1, w2, en, en) is None
            &&& find_section_end(s, en) == hi
            &&& find_bullet_from(s, '*', en, hi, en) is None
            &&& find_bullet_from(s, '-', en, hi, en) == Some((en, en + 1))
        }),
{
    let s = render_section(w1, ps);
    let hdr = 2 + w1.len() as int;
    let bs = render_bullets(ps, 0);
    let hi = s.len() as int;
    assert(s.len() == hdr + bs.len());
    assert forall|i: int| 0 <= i < s.len() implies #[trigger] s[i] == (if i < 2 {
        seq!['#', ' '][i]
    } else if i < hdr {
        w1[i - 2]
    } else {
        bs[i - hdr]
    }) by {
        if i >= 2 && i < hdr {
            assert((seq!['#', ' '] + w1)[i] == w1[i - 2]);
        }
    }
    assert(s[0] == '#');
    assert(s[1] == ' ');
    assert(s.subrange(hdr, hi) =~= bs);
    lemma_render_segment(s, ps, 0, hdr);
    assert(s[hdr] == '\n');
    let en = hdr + 1;
    assert(s.subrange(2, 2 + w1.len() as int) =~= w1);
    assert(crate::text::occurs_at(s, w1, 2));
    lemma_header_match(s, w1, w2);
    lemma_render_newlines(s, ps, 0, hdr);
    assert(s[en] == '-');
    lemma_section_scans(s, w1, w2, en);
    lemma_wsp_end_hits(s, en, hi, en);
    assert(bullet_match_end(s, '-', en, hi, en) == Some(en + 1));
}

/// The round-trip law of the annotation grammar: a requirement section
/// rendered from `(name, description)` pairs in the canonical form — a
/// `# Keyword` header line, then one `- name: description` line per pair
/// — parses back, under the same keyword, to exactly those pairs in
/// source order.
#[verifier::rlimit(100)]
#[verifier::spinoff_prover]
pub proof fn lemma_render_round_trip(w1: Seq<char>, w2: Seq<char>, ps: Seq<(Seq<char>, Seq<char>)>)
    requires
        wf_keyword(w1),
        wf_keyword(w2),
        renderable(ps),
        ps.len() > 0,
    ensures
        ({
            let s = render_section(w1, ps);
            &&& parse_bullets_spec(s, MarkerStyle::Header, w1, w2) is Ok
            &&& ({
                let ts = parse_bullets_spec(s, MarkerStyle::Header, w1, w2)->Ok_0;
                ts.len() == ps.len() && (forall|j: int|
                    0 <= j < ts.len() ==> ((#[trigger] ts[j]).0, ts[j].1) == (ps[j].0, ps[j].1))
            })
        }),
{
    let s = render_section(w1, ps);
    let hdr = 2 + w1.len() as int;
    let hi = s.len() as int;
    let en = hdr + 1;
    lemma_render_prelude(w1, w2, ps);
    lemma_render_segment(s, ps, 0, hdr);
    let n0 = ps[0].0;
    let d0 = ps[0].1;
    let q1 = hdr + 5 + n0.len() + d0.len();
    let ms = bullet_starts(s, '-', en, hi, en);
    let rest_ms = bullet_starts(s, '-', en, hi, en + 1);
    assert(ms == seq![(en, en + 1)] + rest_ms);
    if ps.len() > 1 {
        lemma_render_segment(s, ps, 1, q1);
        assert forall|j: int| en + 1 <= j < q1 implies (#[trigger] s[j]) != '\n' by {
        }
        lemma_bullets_round_trip(s, ps, 1, en, en + 1, q1);
        assert(rest_ms.len() == ps.len() - 1);
        assert(rest_ms[0] == (q1, q1 + 2));
        lemma_parse_rendered_body(s, en + 1, q1, n0, d0);
        lemma_bodies_shift(s, (en, en + 1), rest_ms, 0, hi);
        let rest_ts = parse_bodies_spec(s, rest_ms, 0, hi)->Ok_0;
        let ts0 = parse_bodies_spec(s, ms, 0, hi)->Ok_0;
        assert(ms[0].1 == en + 1 && ms[1].0 == q1);
        assert(parse_bodies_spec(s, ms, 1, hi) == parse_bodies_spec(s, rest_ms, 0, hi));
        assert(ts0 == seq![(n0, d0, (en + 2, q1))] + rest_ts);
        assert forall|j: int| 0 <= j < ts0.len() implies ((#[trigger] ts0[j]).0, ts0[j].1) == (
            ps[j].0,
            ps[j].1,
        ) by {
            if j > 0 {
                assert(ts0[j] == rest_ts[j - 1]);
            }
        }
    } else {
        assert(s.subrange(q1, hi) == render_bullets(ps, 1));
        assert(render_bullets(ps, 1).len() == 0);
        assert(q1 == hi);
        assert(rest_ms =~= Seq::<(int, int)>::empty()) by {
            assert forall|j: int| en + 1 <= j <= hi implies bullet_match_end(
                s,
                '-',
                en,
                hi,
                j,
            ) is None by {
                if j < hi {
                    assert(s[j] != '\n');
                }
            }
            lemma_no_bullet_when(s, '-', en, hi, en + 1);
        }
        lemma_parse_rendered_body(s, en + 1, hi, n0, d0);
        let ts0 = parse_bodies_spec(s, ms, 0, hi)->Ok_0;
        assert(ms.len() == 1 && ms[0] == (en, en + 1));
        assert(parse_bullet_spec(s, en + 1, hi) == Ok::<_, SpecIssue>((n0, d0, (en + 2, hi))));
        assert(ts0 =~= seq![(n0, d0, (en + 2, hi))]);
    }
}

/// The requirement keyword spellings are well-formed marker keywords.
proof fn lemma_unsafe_keywords_wf()
    ensures
        wf_keyword("Unsafe"@),
        wf_keyword("UNSAFE"@),
{
    reveal_strlit("Unsafe");
    reveal_strlit("UNSAFE");
    assert forall|k: int| 0 <= k < "Unsafe"@.len() implies !is_wsp(#[trigger] "Unsafe"@[k])
        && "Unsafe"@[k] != '#' && "Unsafe"@[k] != ':' by {
        assert("Unsafe"@.len() == 6);
    }
    assert forall|k: int| 0 <= k < "UNSAFE"@.len() implies !is_wsp(#[trigger] "UNSAFE"@[k])
        && "UNSAFE"@[k] != '#' && "UNSAFE"@[k] != ':' by {
        assert("UNSAFE"@.len() == 6);
    }
}

/// The round trip through the requirement parser itself: a section
/// rendered in the canonical form under the requirement keyword parses
/// back to exactly its pairs.
pub proof fn lemma_requirements_round_trip(ps: Seq<(Seq<char>, Seq<char>)>)
    requires
        renderable(ps),
        ps.len() > 0,
    ensures
        ({
            let r = crate::annot::requirements_spec(render_section("Unsafe"@, ps));
            &&& r is Ok
            &&& crate::annot::drop_ranges(r->Ok_0) == ps
        }),
{
    lemma_unsafe_keywords_wf();
    lemma_render_round_trip("Unsafe"@, "UNSAFE"@, ps);
    let r = crate::annot::requirements_spec(render_section("Unsafe"@, ps));
    let ts = r->Ok_0;
    assert forall|j: int| 0 <= j < ts.len() implies #[trigger] crate::annot::drop_ranges(ts)[j]
        == ps[j] by {
        assert(crate::annot::drop_ranges(ts)[j] == (ts[j].0, ts[j].1));
        assert((ts[j].0, ts[j].1) == (ps[j].0, ps[j].1));
        assert(ps[j] == (ps[j].0, ps[j].1));
    }
    assert(crate::annot::drop_ranges(ts) =~= ps);
}

} // verus!
