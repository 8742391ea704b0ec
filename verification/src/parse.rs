//! The annotation-section parser.
//!
//! Parses the documentation text attached to one item into an ordered list
//! of `(name, description)` pairs, using a marker-delimited bulleted-list
//! grammar: the unique section marker, the text up to the next section end
//! (another header line or a blank line), a uniform bullet style, and one
//! `name: description` entry per bullet.
//!
//! Every public parsing function is proved to return exactly the outcome of
//! the specification-level parser [`parse_bullets_spec`], so parsing is
//! deterministic, and every error carries the exact character ranges the
//! specification gives.

use vstd::prelude::*;
use crate::bullet::BulletKind;
use crate::bullet::bullet_starts;
use crate::bullet::collect_bullets;
use crate::bullet::find_bullet;
use crate::bullet::find_bullet_from;
use crate::marker::MarkerStyle;
use crate::marker::SectionMarker;
use crate::marker::wf_keyword;
use crate::marker::collect_marker_ranges;
use crate::marker::find_marker;
use crate::marker::find_marker_from;
use crate::marker::find_section_end;
use crate::marker::marker_ranges_from;
use crate::marker::scan_section_end;
use crate::names::ConditionName;
use crate::names::InvalidConditionNameReason;
use crate::names::has_name_wsp;
use crate::names::word_count;
use crate::scan::char_find;
use crate::scan::lemma_char_find_bounds;
use crate::scan::lemma_trim_hi_bounds;
use crate::scan::lemma_wsp_end_to_bounds;
use crate::scan::trim_hi;
use crate::scan::trim_lo;
use crate::text::chars_vec;
use crate::text::string_from_range;

verus! {

/// A half-open range of character offsets into the logical documentation
/// text.
#[derive(Debug, Clone, Copy, PartialEq, Eq, Structural)]
pub struct CharRange {
    pub lo: usize,
    pub hi: usize,
}

impl View for CharRange {
    type V = (int, int);

    open spec fn view(&self) -> (int, int) {
        (self.lo as int, self.hi as int)
    }
}

/// Why parsing an annotation section failed.
///
/// `NoDocString` and `NoMarkerPattern` are recoverable: the item simply is
/// not annotated for the property. Every other kind is a hard parse error
/// carrying the character ranges a diagnostic needs.
#[derive(Debug)]
pub enum ParsingIssue {
    /// The item has no documentation text at all.
    NoDocString,
    /// No marker pattern was found.
    NoMarkerPattern,
    /// Several marker patterns were found, at these ranges.
    MultipleMarkerPatterns(Vec<CharRange>),
    /// A bullet has no colon separator: its trimmed range, and the offset
    /// of the end of its first word within that range.
    NoColon(CharRange, usize),
    /// A marker was found, but its section has no bullets.
    EmptyMarker,
    /// The name before a bullet's colon is invalid.
    InvalidConditionName {
        reason: InvalidConditionNameReason,
        chars: CharRange,
        name: String,
    },
    /// Both bullet styles occur in one section: each style's first
    /// occurrence, in source order, with the bullet character it shows.
    NonMatchingBullets(Vec<(CharRange, String)>),
}

/// The specification-level mirror of [`ParsingIssue`], over mathematical
/// ranges and character sequences.
pub enum SpecIssue {
    NoDocString,
    NoMarkerPattern,
    MultipleMarkerPatterns(Seq<(int, int)>),
    NoColon((int, int), int),
    EmptyMarker,
    InvalidConditionName { reason: InvalidConditionNameReason, chars: (int, int), name: Seq<char> },
    NonMatchingBullets(Seq<((int, int), Seq<char>)>),
}

impl View for ParsingIssue {
    type V = SpecIssue;

    open spec fn view(&self) -> SpecIssue {
        match self {
            ParsingIssue::NoDocString => SpecIssue::NoDocString,
            ParsingIssue::NoMarkerPattern => SpecIssue::NoMarkerPattern,
            ParsingIssue::MultipleMarkerPatterns(rs) => SpecIssue::MultipleMarkerPatterns(
                rs@.map_values(|r: CharRange| r@),
            ),
            ParsingIssue::NoColon(r, w) => SpecIssue::NoColon(r@, *w as int),
            ParsingIssue::EmptyMarker => SpecIssue::EmptyMarker,
            ParsingIssue::InvalidConditionName { reason, chars, name } => {
                SpecIssue::InvalidConditionName { reason: *reason, chars: chars@, name: name@ }
            },
            ParsingIssue::NonMatchingBullets(bs) => SpecIssue::NonMatchingBullets(
                bs@.map_values(|b: (CharRange, String)| (b.0@, b.1@)),
            ),
        }
    }
}

/// The outcome of parsing one bullet body `s[blo..bhi]`: its name and
/// trimmed description, or the error for this bullet.
pub open spec fn parse_bullet_spec(s: Seq<char>, blo: int, bhi: int) -> Result<
    (Seq<char>, Seq<char>, (int, int)),
    SpecIssue,
> {
    let tlo = trim_lo(s, blo, bhi);
    let thi = trim_hi(s, tlo, bhi);
    let c = char_find(s, ':', tlo, thi);
    if c == thi {
        Err(SpecIssue::NoColon((tlo, thi), char_find(s, ' ', tlo, thi) - tlo))
    } else {
        let name = s.subrange(tlo, c);
        if has_name_wsp(name) {
            let reason = if word_count(name) >= 2 {
                InvalidConditionNameReason::MultipleWords
            } else {
                InvalidConditionNameReason::TrailingWhitespace
            };
            Err(SpecIssue::InvalidConditionName { reason, chars: (tlo, c), name })
        } else {
            let dlo = trim_lo(s, c + 1, thi);
            let dhi = trim_hi(s, dlo, thi);
            Ok((name, s.subrange(dlo, dhi), (tlo, thi)))
        }
    }
}

/// The outcome of parsing the bullet bodies `ms[k..]`, where each body
/// runs from the end of its bullet match to the start of the next one (or
/// to the section end `hi`). The first failing bullet fails the whole
/// parse.
pub open spec fn parse_bodies_spec(s: Seq<char>, ms: Seq<(int, int)>, k: int, hi: int) -> Result<
    Seq<(Seq<char>, Seq<char>, (int, int))>,
    SpecIssue,
>
    decreases ms.len() - k,
{
    if k < 0 || k >= ms.len() {
        Ok(Seq::empty())
    } else {
        let blo = ms[k].1;
        let bhi = if k + 1 < ms.len() {
            ms[k + 1].0
        } else {
            hi
        };
        match parse_bullet_spec(s, blo, bhi) {
            Err(e) => Err(e),
            Ok(pair) => match parse_bodies_spec(s, ms, k + 1, hi) {
                Err(e) => Err(e),
                Ok(rest) => Ok(seq![pair] + rest),
            },
        }
    }
}

/// The two offending bullet occurrences of a mixed-style section, in
/// source order: each is the range of its bullet character and the text of
/// its whole match.
pub open spec fn mixed_occurrences(s: Seq<char>, a: (int, int), h: (int, int)) -> Seq<
    ((int, int), Seq<char>),
> {
    let ea = ((a.1 - 1, a.1), s.subrange(a.0, a.1));
    let eh = ((h.1 - 1, h.1), s.subrange(h.0, h.1));
    if a.0 <= h.0 {
        seq![ea, eh]
    } else {
        seq![eh, ea]
    }
}

/// The outcome of parsing the whole documentation text `s` against the
/// marker `(style, w1, w2)`:
///
/// - no marker match: `NoMarkerPattern`;
/// - a second match after the first: `MultipleMarkerPatterns` with every
///   match range;
/// - otherwise the section runs from the end of the marker to the next
///   section end; a section showing both bullet styles is
///   `NonMatchingBullets`, one showing neither is `EmptyMarker`;
/// - otherwise each bullet body is split at its first colon into a
///   validated name and a trimmed description, in source order, the first
///   failing bullet failing the parse.
pub open spec fn parse_bullets_spec(
    s: Seq<char>,
    style: MarkerStyle,
    w1: Seq<char>,
    w2: Seq<char>,
) -> Result<Seq<(Seq<char>, Seq<char>, (int, int))>, SpecIssue> {
    match find_marker_from(s, style, w1, w2, 0, 0) {
        None => Err(SpecIssue::NoMarkerPattern),
        Some((st, en)) => {
            if find_marker_from(s, style, w1, w2, en, en) is Some {
                Err(SpecIssue::MultipleMarkerPatterns(marker_ranges_from(s, style, w1, w2, 0)))
            } else {
                let hi = find_section_end(s, en);
                let fa = find_bullet_from(s, '*', en, hi, en);
                let fh = find_bullet_from(s, '-', en, hi, en);
                if fa is Some && fh is Some {
                    Err(SpecIssue::NonMatchingBullets(mixed_occurrences(s, fa->0, fh->0)))
                } else if fa is Some {
                    parse_bodies_spec(s, bullet_starts(s, '*', en, hi, en), 0, hi)
                } else if fh is Some {
                    parse_bodies_spec(s, bullet_starts(s, '-', en, hi, en), 0, hi)
                } else {
                    Err(SpecIssue::EmptyMarker)
                }
            }
        },
    }
}

/// The specification-level view of a parse result.
pub open spec fn outcome_view(
    r: Result<Vec<(ConditionName, String, CharRange)>, ParsingIssue>,
) -> Result<Seq<(Seq<char>, Seq<char>, (int, int))>, SpecIssue> {
    match r {
        Ok(v) => Ok(v@.map_values(|p: (ConditionName, String, CharRange)| (p.0@, p.1@, p.2@))),
        Err(e) => Err(e@),
    }
}

impl BulletKind {
    /// Determine which bullet style the section `[lo, hi)` of `v` uses.
    ///
    /// A section showing both styles is an error naming the first
    /// occurrence of each, in source order; one showing neither is
    /// `EmptyMarker`.
    pub fn detect(v: &Vec<char>, lo: usize, hi: usize) -> (r: Result<BulletKind, ParsingIssue>)
        requires
            lo <= hi <= v@.len(),
        ensures
            ({
                let fa = find_bullet_from(v@, '*', lo as int, hi as int, lo as int);
                let fh = find_bullet_from(v@, '-', lo as int, hi as int, lo as int);
                match r {
                    Ok(BulletKind::Asterisk) => fa is Some && fh is None,
                    Ok(BulletKind::Hyphen) => fa is None && fh is Some,
                    Err(e) => (fa is Some && fh is Some && e@ == SpecIssue::NonMatchingBullets(
                        mixed_occurrences(v@, fa->0, fh->0),
                    )) || (fa is None && fh is None && e@ == SpecIssue::EmptyMarker),
                }
            }),
    {
        let fa = find_bullet(v, '*', lo, hi, lo);
        let fh = find_bullet(v, '-', lo, hi, lo);
        match (fa, fh) {
            (Some((ast, aen)), Some((hst, hen))) => {
                let ea = (
                    CharRange { lo: aen - 1, hi: aen },
                    string_from_range(v, ast, aen),
                );
                let eh = (
                    CharRange { lo: hen - 1, hi: hen },
                    string_from_range(v, hst, hen),
                );
                let mut occ: Vec<(CharRange, String)> = Vec::new();
                if ast <= hst {
                    occ.push(ea);
                    occ.push(eh);
                } else {
                    occ.push(eh);
                    occ.push(ea);
                }
                proof {
                    let fa_s = find_bullet_from(v@, '*', lo as int, hi as int, lo as int);
                    let fh_s = find_bullet_from(v@, '-', lo as int, hi as int, lo as int);
                    assert(occ@.map_values(|b: (CharRange, String)| (b.0@, b.1@))
                        =~= mixed_occurrences(v@, fa_s->0, fh_s->0));
                }
                Err(ParsingIssue::NonMatchingBullets(occ))
            },
            (Some(_), None) => Ok(BulletKind::Asterisk),
            (None, Some(_)) => Ok(BulletKind::Hyphen),
            (None, None) => Err(ParsingIssue::EmptyMarker),
        }
    }
}

/// Parse one bullet body `v[blo..bhi]` into a validated name and a trimmed
/// description.
fn parse_bullet(v: &Vec<char>, blo: usize, bhi: usize) -> (r: Result<
    (ConditionName, String, CharRange),
    ParsingIssue,
>)
    requires
        blo <= bhi <= v@.len(),
    ensures
        match r {
            Ok(p) => parse_bullet_spec(v@, blo as int, bhi as int) == Ok::<_, SpecIssue>(
                (p.0@, p.1@, p.2@),
            ),
            Err(e) => parse_bullet_spec(v@, blo as int, bhi as int) == Err::<
                (Seq<char>, Seq<char>, (int, int)),
                _,
            >(e@),
        },
{
    let tlo = crate::scan::scan_wsp(v, blo, bhi);
    let thi = crate::scan::scan_trim_hi(v, tlo, bhi);
    let c = crate::scan::scan_char(v, ':', tlo, thi);
    if c == thi {
        let sp = crate::scan::scan_char(v, ' ', tlo, thi);
        Err(ParsingIssue::NoColon(CharRange { lo: tlo, hi: thi }, sp - tlo))
    } else {
        let name_s = string_from_range(v, tlo, c);
        match ConditionName::try_new(name_s.as_str()) {
            Ok(nm) => {
                let dlo = crate::scan::scan_wsp(v, c + 1, thi);
                let dhi = crate::scan::scan_trim_hi(v, dlo, thi);
                Ok((nm, string_from_range(v, dlo, dhi), CharRange { lo: tlo, hi: thi }))
            },
            Err(reason) => Err(
                ParsingIssue::InvalidConditionName {
                    reason,
                    chars: CharRange { lo: tlo, hi: c },
                    name: name_s,
                },
            ),
        }
    }
}

/// The concatenation of an already-parsed prefix with the outcome of the
/// remaining bullets.
pub open spec fn with_prefix(
    pre: Seq<(Seq<char>, Seq<char>, (int, int))>,
    rest: Result<Seq<(Seq<char>, Seq<char>, (int, int))>, SpecIssue>,
) -> Result<Seq<(Seq<char>, Seq<char>, (int, int))>, SpecIssue> {
    match rest {
        Ok(r) => Ok(pre + r),
        Err(e) => Err(e),
    }
}

/// Parse every bullet body of the section `[lo, hi)`, failing fast at the
/// first bad bullet.
fn parse_section_bullets(v: &Vec<char>, b: char, lo: usize, hi: usize) -> (r: Result<
    Vec<(ConditionName, String, CharRange)>,
    ParsingIssue,
>)
    requires
        lo <= hi <= v@.len(),
        b == '*' || b == '-',
    ensures
        outcome_view(r) == parse_bodies_spec(
            v@,
            bullet_starts(v@, b, lo as int, hi as int, lo as int),
            0,
            hi as int,
        ),
{
    let ms = collect_bullets(v, b, lo, hi);
    let ghost msv = bullet_starts(v@, b, lo as int, hi as int, lo as int);
    let mut out: Vec<(ConditionName, String, CharRange)> = Vec::new();
    let mut k: usize = 0;
    while k < ms.len()
        invariant
            lo <= hi <= v@.len(),
            msv == bullet_starts(v@, b, lo as int, hi as int, lo as int),
            msv.len() == ms@.len(),
            forall|j: int| #![trigger ms@[j]]
                0 <= j < ms@.len() ==> msv[j] == ((ms@[j].0 as int, ms@[j].1 as int)),
            forall|j: int| #![trigger ms@[j]]
                0 <= j < ms@.len() ==> lo <= ms@[j].0 < ms@[j].1 <= hi,
            forall|j: int| #![trigger ms@[j]]
                0 <= j < ms@.len() - 1 ==> ms@[j].1 <= ms@[j + 1].0,
            k <= ms@.len(),
            parse_bodies_spec(v@, msv, 0, hi as int) == with_prefix(
                out@.map_values(|p: (ConditionName, String, CharRange)| (p.0@, p.1@, p.2@)),
                parse_bodies_spec(v@, msv, k as int, hi as int),
            ),
        decreases ms@.len() - k,
    {
        let blo = ms[k].1;
        let bhi = if k + 1 < ms.len() {
            ms[k + 1].0
        } else {
            hi
        };
        let ghost pre = out@.map_values(
            |p: (ConditionName, String, CharRange)| (p.0@, p.1@, p.2@),
        );
        proof {
            assert(msv[k as int] == ((ms@[k as int].0 as int, ms@[k as int].1 as int)));
            if k as int + 1 < ms@.len() {
                assert(msv[k as int + 1] == ((ms@[k as int + 1].0 as int, ms@[k as int
                    + 1].1 as int)));
            }
        }
        match parse_bullet(v, blo, bhi) {
            Err(e) => {
                proof {
                    assert(parse_bodies_spec(v@, msv, k as int, hi as int) == Err::<
                        Seq<(Seq<char>, Seq<char>, (int, int))>,
                        SpecIssue,
                    >(e@));
                }
                return Err(e);
            },
            Ok(pair) => {
                let ghost pv = (pair.0@, pair.1@, pair.2@);
                out.push(pair);
                proof {
                    assert(out@.map_values(
                        |p: (ConditionName, String, CharRange)| (p.0@, p.1@, p.2@),
                    ) =~= pre + seq![pv]);
                    let rec = parse_bodies_spec(v@, msv, k as int + 1, hi as int);
                    if rec is Ok {
                        assert((pre + seq![pv]) + rec->Ok_0 =~= pre + (seq![pv] + rec->Ok_0));
                    }
                }
                k = k + 1;
            },
        }
    }
    proof {
        assert(out@.map_values(|p: (ConditionName, String, CharRange)| (p.0@, p.1@, p.2@))
            + parse_bodies_spec(v@, msv, k as int, hi as int)->Ok_0 =~= out@.map_values(
            |p: (ConditionName, String, CharRange)| (p.0@, p.1@, p.2@),
        ));
    }
    Ok(out)
}

/// Parse the documentation text of one item against a section marker.
///
/// Returns the `(name, description)` pairs of the section's bullets in
/// source order, or the error that [`parse_bullets_spec`] gives for this
/// text; two parses of the same text always return the same outcome,
/// including the same error character ranges.
pub fn parse_bullets_from_string(text: &str, m: &SectionMarker) -> (r: Result<
    Vec<(ConditionName, String, CharRange)>,
    ParsingIssue,
>)
    requires
        m.wf(),
    ensures
        outcome_view(r) == parse_bullets_spec(text@, m.style, m.word@, m.word_caps@),
{
    let v = chars_vec(text);
    match find_marker(&v, m, 0, 0) {
        None => Err(ParsingIssue::NoMarkerPattern),
        Some((_st, en)) => {
            match find_marker(&v, m, en, en) {
                Some(_) => {
                    let ranges = collect_marker_ranges(&v, m);
                    let ghost rsv = marker_ranges_from(v@, m.style, m.word@, m.word_caps@, 0);
                    let mut out: Vec<CharRange> = Vec::new();
                    let mut i: usize = 0;
                    while i < ranges.len()
                        invariant
                            i <= ranges@.len(),
                            out@.len() == i,
                            rsv.len() == ranges@.len(),
                            forall|j: int| #![trigger ranges@[j]]
                                0 <= j < ranges@.len() ==> rsv[j] == ((
                                    ranges@[j].0 as int,
                                    ranges@[j].1 as int,
                                )),
                            forall|j: int|
                                0 <= j < i ==> #[trigger] out@[j] == (CharRange {
                                    lo: ranges@[j].0,
                                    hi: ranges@[j].1,
                                }),
                        decreases ranges@.len() - i,
                    {
                        let (a, b) = ranges[i];
                        out.push(CharRange { lo: a, hi: b });
                        i = i + 1;
                    }
                    proof {
                        assert(out@.map_values(|r: CharRange| r@) =~= rsv);
                    }
                    Err(ParsingIssue::MultipleMarkerPatterns(out))
                },
                None => {
                    let hi = scan_section_end(&v, en);
                    match BulletKind::detect(&v, en, hi) {
                        Err(e) => Err(e),
                        Ok(kind) => parse_section_bullets(&v, kind.marker_char(), en, hi),
                    }
                },
            }
        },
    }
}

/// Parsing is deterministic: the same text under the same marker always
/// yields the same outcome, including the same error character ranges.
/// Together with the contract of [`parse_bullets_from_string`] — whose
/// result is exactly [`parse_bullets_spec`] of its input — two parses of
/// equal texts always agree.
pub proof fn lemma_parse_deterministic(
    s1: Seq<char>,
    s2: Seq<char>,
    style: MarkerStyle,
    w1: Seq<char>,
    w2: Seq<char>,
)
    requires
        s1 == s2,
    ensures
        parse_bullets_spec(s1, style, w1, w2) == parse_bullets_spec(s2, style, w1, w2),
{
}

/// A section that shows both bullet styles always fails with
/// `NonMatchingBullets`, whatever the counts or the order of the two
/// styles: as soon as a first occurrence of each style exists in the
/// section, the parse is that error.
pub proof fn lemma_mixed_styles_rejected(
    s: Seq<char>,
    style: MarkerStyle,
    w1: Seq<char>,
    w2: Seq<char>,
)
    requires
        find_marker_from(s, style, w1, w2, 0, 0) is Some,
        find_marker_from(
            s,
            style,
            w1,
            w2,
            (find_marker_from(s, style, w1, w2, 0, 0)->0).1,
            (find_marker_from(s, style, w1, w2, 0, 0)->0).1,
        ) is None,
        ({
            let en = (find_marker_from(s, style, w1, w2, 0, 0)->0).1;
            let hi = find_section_end(s, en);
            find_bullet_from(s, '*', en, hi, en) is Some && find_bullet_from(s, '-', en, hi, en)
                is Some
        }),
    ensures
        parse_bullets_spec(s, style, w1, w2) matches Err(SpecIssue::NonMatchingBullets(_)),
{
}

/// Bounds of a found bullet match.
proof fn lemma_find_bullet_bounds(s: Seq<char>, b: char, lo: int, hi: int, i: int)
    requires
        b == '*' || b == '-',
        find_bullet_from(s, b, lo, hi, i) is Some,
    ensures
        i <= (find_bullet_from(s, b, lo, hi, i)->0).0,
        (find_bullet_from(s, b, lo, hi, i)->0).0 < (find_bullet_from(s, b, lo, hi, i)->0).1,
        (find_bullet_from(s, b, lo, hi, i)->0).1 <= hi,
    decreases hi - i,
{
    if crate::bullet::bullet_match_end(s, b, lo, hi, i) is Some {
        crate::bullet::lemma_bullet_match_end_bounds(s, b, lo, hi, i);
    } else if i < hi {
        lemma_find_bullet_bounds(s, b, lo, hi, i + 1);
    }
}

/// The successive bullet matches are ordered and lie within the window.
proof fn lemma_bullet_starts_sorted(s: Seq<char>, b: char, lo: int, hi: int, p: int)
    requires
        b == '*' || b == '-',
        0 <= lo <= p <= hi <= s.len(),
    ensures
        ({
            let ms = bullet_starts(s, b, lo, hi, p);
            &&& forall|k: int| #![trigger ms[k]]
                0 <= k < ms.len() ==> p <= ms[k].0 < ms[k].1 <= hi
            &&& forall|k: int| #![trigger ms[k]]
                0 <= k < ms.len() - 1 ==> ms[k].1 <= ms[k + 1].0
        }),
    decreases hi - p,
{
    let ms = bullet_starts(s, b, lo, hi, p);
    match find_bullet_from(s, b, lo, hi, p) {
        None => {
        },
        Some((st, en)) => {
            lemma_find_bullet_bounds(s, b, lo, hi, p);
            if p < en <= hi {
                lemma_bullet_starts_sorted(s, b, lo, hi, en);
                let rest = bullet_starts(s, b, lo, hi, en);
                assert forall|k: int| 0 <= k < ms.len() implies p <= (#[trigger] ms[k]).0 < ms[
                    k
                ].1 <= hi by {
                    if k > 0 {
                        assert(ms[k] == rest[k - 1]);
                    }
                }
                assert forall|k: int| 0 <= k < ms.len() - 1 implies (#[trigger] ms[k]).1 <= ms[
                    k + 1
                ].0 by {
                    if k > 0 {
                        assert(ms[k] == rest[k - 1]);
                        assert(ms[k + 1] == rest[k]);
                    } else {
                        assert(ms[1] == rest[0]);
                    }
                }
            }
        },
    }
}

/// The shape of one successfully parsed bullet body: the name contains no
/// whitespace, the description carries no leading or trailing whitespace,
/// and the bullet's range lies within the body.
proof fn lemma_bullet_shape(s: Seq<char>, blo: int, bhi: int)
    requires
        0 <= blo <= bhi <= s.len(),
        parse_bullet_spec(s, blo, bhi) is Ok,
    ensures
        ({
            let t = parse_bullet_spec(s, blo, bhi)->Ok_0;
            &&& !has_name_wsp(t.0)
            &&& (t.1.len() > 0 ==> !crate::text::is_wsp(t.1[0]) && !crate::text::is_wsp(
                t.1[t.1.len() - 1],
            ))
            &&& blo <= t.2.0 <= t.2.1 <= bhi
        }),
{
    let tlo = trim_lo(s, blo, bhi);
    lemma_wsp_end_to_bounds(s, blo, bhi);
    let thi = trim_hi(s, tlo, bhi);
    lemma_trim_hi_bounds(s, tlo, bhi);
    let c = char_find(s, ':', tlo, thi);
    lemma_char_find_bounds(s, ':', tlo, thi);
    let dlo = trim_lo(s, c + 1, thi);
    lemma_wsp_end_to_bounds(s, c + 1, thi);
    let dhi = trim_hi(s, dlo, thi);
    lemma_trim_hi_bounds(s, dlo, thi);
}

/// Parsing the bullet bodies `ms[k..]` of a well-formed section yields
/// exactly one pair per bullet, in source order.
proof fn lemma_bodies_shape(s: Seq<char>, ms: Seq<(int, int)>, k: int, hi: int)
    requires
        0 <= k <= ms.len(),
        hi <= s.len(),
        forall|j: int| #![trigger ms[j]] 0 <= j < ms.len() ==> 0 <= ms[j].0 < ms[j].1 <= hi,
        forall|j: int| #![trigger ms[j]] 0 <= j < ms.len() - 1 ==> ms[j].1 <= ms[j + 1].0,
        parse_bodies_spec(s, ms, k, hi) is Ok,
    ensures
        ({
            let ts = parse_bodies_spec(s, ms, k, hi)->Ok_0;
            &&& ts.len() == ms.len() - k
            &&& forall|j: int| #![trigger ts[j]]
                0 <= j < ts.len() ==> {
                    &&& !has_name_wsp(ts[j].0)
                    &&& (ts[j].1.len() > 0 ==> !crate::text::is_wsp(ts[j].1[0])
                        && !crate::text::is_wsp(ts[j].1[ts[j].1.len() - 1]))
                    &&& ms[k + j].1 <= ts[j].2.0 <= ts[j].2.1 <= (if k + j + 1 < ms.len() {
                        ms[k + j + 1].0
                    } else {
                        hi
                    })
                }
        }),
    decreases ms.len() - k,
{
    if k < ms.len() {
        let blo = ms[k].1;
        let bhi = if k + 1 < ms.len() {
            ms[k + 1].0
        } else {
            hi
        };
        lemma_bullet_shape(s, blo, bhi);
        lemma_bodies_shape(s, ms, k + 1, hi);
        let ts = parse_bodies_spec(s, ms, k, hi)->Ok_0;
        let rest = parse_bodies_spec(s, ms, k + 1, hi)->Ok_0;
        assert forall|j: int| 0 <= j < ts.len() implies {
            &&& !has_name_wsp((#[trigger] ts[j]).0)
            &&& (ts[j].1.len() > 0 ==> !crate::text::is_wsp(ts[j].1[0]) && !crate::text::is_wsp(
                ts[j].1[ts[j].1.len() - 1],
            ))
            &&& ms[k + j].1 <= ts[j].2.0 <= ts[j].2.1 <= (if k + j + 1 < ms.len() {
                ms[k + j + 1].0
            } else {
                hi
            })
        } by {
            if j > 0 {
                assert(ts[j] == rest[j - 1]);
            }
        }
    }
}

/// A well-formed requirement-section text with N bullets in a consistent
/// style parses to exactly N `(name, description)` pairs, one per bullet
/// and in source order: whenever the parse succeeds, its result has one
/// entry per bullet match of the chosen style, each name free of
/// whitespace, each description stripped of surrounding whitespace, and
/// the entries' ranges ordered as the bullets are.
pub proof fn lemma_parse_one_pair_per_bullet(
    s: Seq<char>,
    style: MarkerStyle,
    w1: Seq<char>,
    w2: Seq<char>,
)
    requires
        wf_keyword(w1),
        wf_keyword(w2),
        parse_bullets_spec(s, style, w1, w2) is Ok,
    ensures
        ({
            let en = (find_marker_from(s, style, w1, w2, 0, 0)->0).1;
            let hi = find_section_end(s, en);
            let b = if find_bullet_from(s, '*', en, hi, en) is Some {
                '*'
            } else {
                '-'
            };
            let ts = parse_bullets_spec(s, style, w1, w2)->Ok_0;
            &&& ts.len() == bullet_starts(s, b, en, hi, en).len()
            &&& forall|j: int| #![trigger ts[j]]
                0 <= j < ts.len() ==> !has_name_wsp(ts[j].0) && (ts[j].1.len() > 0
                    ==> !crate::text::is_wsp(ts[j].1[0]) && !crate::text::is_wsp(
                    ts[j].1[ts[j].1.len() - 1],
                ))
            &&& forall|j1: int, j2: int|
                0 <= j1 < j2 < ts.len() ==> (#[trigger] ts[j1]).2.1 <= (#[trigger] ts[j2]).2.0
        }),
{
    let fm = find_marker_from(s, style, w1, w2, 0, 0);
    let en = (fm->0).1;
    lemma_find_marker_bounds(s, style, w1, w2, 0, 0);
    let hi = find_section_end(s, en);
    crate::marker::lemma_find_section_end_bounds(s, en);
    let b = if find_bullet_from(s, '*', en, hi, en) is Some {
        '*'
    } else {
        '-'
    };
    let ms = bullet_starts(s, b, en, hi, en);
    lemma_bullet_starts_sorted(s, b, en, hi, en);
    lemma_bodies_shape(s, ms, 0, hi);
    let ts = parse_bullets_spec(s, style, w1, w2)->Ok_0;
    assert(ts == parse_bodies_spec(s, ms, 0, hi)->Ok_0);
    assert forall|j1: int, j2: int|
        0 <= j1 < j2 < ts.len() implies (#[trigger] ts[j1]).2.1 <= (#[trigger] ts[j2]).2.0 by {
        assert(ts[j1].2.1 <= ms[j1 + 1].0);
        lemma_ms_monotone(ms, j1 + 1, j2);
        assert(ms[j2].1 <= ts[j2].2.0);
    }
}

/// Bullet matches later in the list start no earlier.
proof fn lemma_ms_monotone(ms: Seq<(int, int)>, a: int, c: int)
    requires
        0 <= a <= c < ms.len(),
        forall|j: int| #![trigger ms[j]] 0 <= j < ms.len() ==> ms[j].0 < ms[j].1,
        forall|j: int| #![trigger ms[j]] 0 <= j < ms.len() - 1 ==> ms[j].1 <= ms[j + 1].0,
    ensures
        ms[a].0 <= ms[c].0,
    decreases c - a,
{
    if a < c {
        lemma_ms_monotone(ms, a + 1, c);
    }
}

/// Bounds of a found marker match.
proof fn lemma_find_marker_bounds(
    s: Seq<char>,
    style: MarkerStyle,
    w1: Seq<char>,
    w2: Seq<char>,
    lo: int,
    i: int,
)
    requires
        wf_keyword(w1),
        wf_keyword(w2),
        0 <= lo <= i <= s.len(),
        find_marker_from(s, style, w1, w2, lo, i) is Some,
    ensures
        i <= (find_marker_from(s, style, w1, w2, lo, i)->0).0,
        (find_marker_from(s, style, w1, w2, lo, i)->0).0 < (find_marker_from(
            s,
            style,
            w1,
            w2,
            lo,
            i,
        )->0).1,
        (find_marker_from(s, style, w1, w2, lo, i)->0).1 <= s.len(),
    decreases s.len() - i,
{
    if crate::marker::marker_match_end(s, style, w1, w2, lo, i) is Some {
        crate::marker::lemma_marker_match_end_bounds(s, style, w1, w2, lo, i);
    } else if i < s.len() {
        lemma_find_marker_bounds(s, style, w1, w2, lo, i + 1);
    }
}

/// The requirement-section marker: an `Unsafe` header line.
pub fn requirement_marker() -> (m: SectionMarker)
    ensures
        m.wf(),
        m.style == MarkerStyle::Header,
        m.word@ == "Unsafe"@,
        m.word_caps@ == "UNSAFE"@,
{
    proof {
        reveal_strlit("Unsafe");
        reveal_strlit("UNSAFE");
    }
    let word = chars_vec("Unsafe");
    let word_caps = chars_vec("UNSAFE");
    SectionMarker { style: MarkerStyle::Header, word, word_caps }
}

/// The justification-section marker: a bare `Safety:` line.
pub fn justification_marker() -> (m: SectionMarker)
    ensures
        m.wf(),
        m.style == MarkerStyle::InlineColon,
        m.word@ == "Safety"@,
        m.word_caps@ == "SAFETY"@,
{
    proof {
        reveal_strlit("Safety");
        reveal_strlit("SAFETY");
    }
    let word = chars_vec("Safety");
    let word_caps = chars_vec("SAFETY");
    SectionMarker { style: MarkerStyle::InlineColon, word, word_caps }
}

} // verus!
