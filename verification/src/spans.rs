//! Mapping character ranges of the logical documentation text back to
//! source spans.
//!
//! The documentation text attached to one item is the newline-joined
//! concatenation of several raw comment lines, each with its own origin
//! span in the source and a fixed three-character `///` prefix before its
//! text. A character range of the joined text is translated back into one
//! span per overlapped fragment, and spans that touch in the source are
//! merged for cleaner diagnostics.
//!
//! Two mapped spans merge exactly when the first ends where the second
//! starts, so a caller that wants adjacent comment lines to merge must
//! hand the fragments in with abutting origin spans; spans separated by
//! a newline byte never merge.

use vstd::prelude::*;

verus! {

/// A half-open span of byte positions in the original source.
#[derive(Debug, Clone, Copy, PartialEq, Eq, Structural)]
pub struct SrcSpan {
    pub lo: u32,
    pub hi: u32,
}

/// The mathematical view of one source span.
pub open spec fn span_view(s: SrcSpan) -> (int, int) {
    (s.lo as int, s.hi as int)
}

/// The mathematical view of a list of source spans.
pub open spec fn spans_view(v: Seq<SrcSpan>) -> Seq<(int, int)> {
    v.map_values(|s: SrcSpan| span_view(s))
}

/// The number of characters of each raw comment line before its text
/// starts: the three characters of the `///` marker.
pub const DOC_COMMENT_PREFIX_LEN: u32 = 3;

/// One raw comment line: its origin span and the character count of its
/// text.
#[derive(Debug, Clone, Copy, PartialEq, Eq, Structural)]
pub struct DocFragment {
    pub span: SrcSpan,
    pub len: usize,
}

/// A fragment is well formed when its origin span is ordered and has room
/// for the comment prefix and the text.
pub open spec fn frag_wf(f: DocFragment) -> bool {
    f.span.lo + DOC_COMMENT_PREFIX_LEN + f.len <= f.span.hi
}

/// All fragments well formed, and the running offsets fit in a `usize`.
pub open spec fn frags_wf(fs: Seq<DocFragment>) -> bool {
    &&& forall|i: int| 0 <= i < fs.len() ==> frag_wf(#[trigger] fs[i])
    &&& frag_offset(fs, fs.len() as int) <= usize::MAX
}

/// The character offset of fragment `i`'s text within the joined
/// documentation text: earlier fragments plus one joining newline each.
pub open spec fn frag_offset(fs: Seq<DocFragment>, i: int) -> int
    decreases i,
{
    if i <= 0 {
        0
    } else {
        frag_offset(fs, i - 1) + fs[i - 1].len + 1
    }
}

/// The length of the whole joined documentation text.
pub open spec fn total_len(fs: Seq<DocFragment>) -> int {
    if fs.len() == 0 {
        0
    } else {
        frag_offset(fs, fs.len() as int) - 1
    }
}

/// The source span contributed by one fragment at running offset `off`
/// for the target range `[lo, hi)`, if the range overlaps the fragment's
/// window and the translated span is non-empty.
///
/// A position strictly inside the fragment's text maps to the span start
/// plus the prefix length plus the position; position zero maps to the
/// span start itself, so a range that covers the start of a line also
/// covers its comment marker. The end is clamped to the fragment's span.
pub open spec fn frag_contrib(f: DocFragment, off: int, lo: int, hi: int) -> Option<(int, int)> {
    let pl = if lo > off {
        lo - off
    } else {
        0
    };
    let ph = if hi - off < f.len {
        hi - off
    } else {
        f.len as int
    };
    if pl < ph {
        let mlo = if pl == 0 {
            f.span.lo as int
        } else {
            f.span.lo + DOC_COMMENT_PREFIX_LEN + pl
        };
        let mhi0 = f.span.lo + DOC_COMMENT_PREFIX_LEN + ph;
        let mhi = if mhi0 < f.span.hi {
            mhi0
        } else {
            f.span.hi as int
        };
        if mlo < mhi {
            Some((mlo, mhi))
        } else {
            None
        }
    } else {
        None
    }
}

/// The spans contributed by the fragments `fs[i..]` for the target range
/// `[lo, hi)`, in fragment order.
pub open spec fn contribs(fs: Seq<DocFragment>, i: int, lo: int, hi: int) -> Seq<(int, int)>
    decreases fs.len() - i,
{
    if i < 0 || i >= fs.len() {
        Seq::empty()
    } else {
        let rest = contribs(fs, i + 1, lo, hi);
        match frag_contrib(fs[i], frag_offset(fs, i), lo, hi) {
            Some(p) => seq![p] + rest,
            None => rest,
        }
    }
}

/// The whole origin spans of the fragments `fs[i..]`, in order.
pub open spec fn all_spans(fs: Seq<DocFragment>, i: int) -> Seq<(int, int)>
    decreases fs.len() - i,
{
    if i < 0 || i >= fs.len() {
        Seq::empty()
    } else {
        seq![(fs[i].span.lo as int, fs[i].span.hi as int)] + all_spans(fs, i + 1)
    }
}

/// One left-fold step of merging: append the span, or fuse it with the
/// previous one when that one ends exactly where this one starts.
pub open spec fn merge_step(acc: Seq<(int, int)>, x: (int, int)) -> Seq<(int, int)> {
    if acc.len() > 0 && acc.last().1 == x.0 {
        acc.update(acc.len() - 1, (acc.last().0, x.1))
    } else {
        acc.push(x)
    }
}

/// Merge every pair of source-adjacent spans, left to right.
pub open spec fn merge_adjacent_spec(sp: Seq<(int, int)>) -> Seq<(int, int)>
    decreases sp.len(),
{
    if sp.len() == 0 {
        Seq::empty()
    } else {
        merge_step(merge_adjacent_spec(sp.drop_last()), sp.last())
    }
}

/// Merging never returns more spans than it was given, and returns none
/// only when given none.
pub proof fn lemma_merge_len(sp: Seq<(int, int)>)
    ensures
        merge_adjacent_spec(sp).len() <= sp.len(),
        sp.len() > 0 ==> merge_adjacent_spec(sp).len() >= 1,
    decreases sp.len(),
{
    if sp.len() > 0 {
        lemma_merge_len(sp.drop_last());
    }
}

/// Exec merging of adjacent spans, as [`merge_adjacent_spec`] describes.
pub fn merge_adjacent(spans: &Vec<SrcSpan>) -> (r: Vec<SrcSpan>)
    ensures
        spans_view(r@) == merge_adjacent_spec(
            spans_view(spans@),
        ),
{
    let ghost full = spans_view(spans@);
    let mut acc: Vec<SrcSpan> = Vec::new();
    let mut i: usize = 0;
    while i < spans.len()
        invariant
            i <= spans@.len(),
            full == spans_view(spans@),
            spans_view(acc@) == merge_adjacent_spec(
                full.subrange(0, i as int),
            ),
        decreases spans@.len() - i,
    {
        let x = spans[i];
        let ghost pre = full.subrange(0, i as int);
        let ghost accv = spans_view(acc@);
        proof {
            assert(full.subrange(0, i as int + 1).drop_last() =~= pre);
            assert(full.subrange(0, i as int + 1).last() == full[i as int]);
            assert(full[i as int] == (x.lo as int, x.hi as int));
        }
        if acc.len() > 0 && acc[acc.len() - 1].hi == x.lo {
            let last = acc[acc.len() - 1];
            let fused = SrcSpan { lo: last.lo, hi: x.hi };
            let _ = acc.pop();
            acc.push(fused);
            proof {
                assert(accv.last() == (last.lo as int, last.hi as int));
                assert(spans_view(acc@) =~= accv.update(
                    accv.len() - 1,
                    (accv.last().0, x.hi as int),
                ));
            }
        } else {
            acc.push(x);
            proof {
                if accv.len() > 0 {
                    assert(accv.last() == (acc@[accv.len() - 1].lo as int, acc@[
                        accv.len() - 1
                    ].hi as int));
                }
                assert(spans_view(acc@) =~= accv.push(
                    (x.lo as int, x.hi as int),
                ));
            }
        }
        i = i + 1;
    }
    proof {
        assert(full.subrange(0, i as int) =~= full);
    }
    acc
}

/// Map the character range `[lo, hi)` of the joined documentation text to
/// the merged list of source spans it covers.
///
/// Returns `None` exactly when the range overlaps no fragment: that means
/// the caller mapped a range from the wrong document.
pub fn span_some_comments(frags: &Vec<DocFragment>, lo: usize, hi: usize) -> (r: Option<
    Vec<SrcSpan>,
>)
    requires
        frags_wf(frags@),
    ensures
        match r {
            Some(v) => spans_view(v@)
                == merge_adjacent_spec(contribs(frags@, 0, lo as int, hi as int)) && v@.len() > 0,
            None => contribs(frags@, 0, lo as int, hi as int).len() == 0,
        },
{
    let mut raw: Vec<SrcSpan> = Vec::new();
    let mut off: usize = 0;
    let mut i: usize = 0;
    while i < frags.len()
        invariant
            i <= frags@.len(),
            frags_wf(frags@),
            off == frag_offset(frags@, i as int),
            contribs(frags@, 0, lo as int, hi as int) == spans_view(raw@) + contribs(
                frags@,
                i as int,
                lo as int,
                hi as int,
            ),
        decreases frags@.len() - i,
    {
        let f = frags[i];
        let ghost rawv = spans_view(raw@);
        proof {
            assert(frag_wf(frags@[i as int]));
            lemma_frag_offset_bound(frags@, i as int);
        }
        let pl: usize = if lo > off {
            lo - off
        } else {
            0
        };
        let ph: usize = if hi > off && hi - off < f.len {
            hi - off
        } else {
            f.len
        };
        if hi > off && pl < ph {
            let mlo: u32 = if pl == 0 {
                f.span.lo
            } else {
                f.span.lo + DOC_COMMENT_PREFIX_LEN + (pl as u32)
            };
            let mhi0: u32 = f.span.lo + DOC_COMMENT_PREFIX_LEN + (ph as u32);
            let mhi: u32 = if mhi0 < f.span.hi {
                mhi0
            } else {
                f.span.hi
            };
            if mlo < mhi {
                raw.push(SrcSpan { lo: mlo, hi: mhi });
                proof {
                    assert(spans_view(raw@) =~= rawv
                        + seq![(mlo as int, mhi as int)]);
                    assert(rawv + contribs(frags@, i as int, lo as int, hi as int) =~= (rawv
                        + seq![(mlo as int, mhi as int)]) + contribs(
                        frags@,
                        i as int + 1,
                        lo as int,
                        hi as int,
                    ));
                }
            } else {
                proof {
                    assert(rawv + contribs(frags@, i as int, lo as int, hi as int) =~= rawv
                        + contribs(frags@, i as int + 1, lo as int, hi as int));
                }
            }
        } else {
            proof {
                assert(frag_contrib(
                    frags@[i as int],
                    frag_offset(frags@, i as int),
                    lo as int,
                    hi as int,
                ) is None);
                assert(rawv + contribs(frags@, i as int, lo as int, hi as int) =~= rawv + contribs(
                    frags@,
                    i as int + 1,
                    lo as int,
                    hi as int,
                ));
            }
        }
        off = off + f.len + 1;
        i = i + 1;
    }
    proof {
        assert(spans_view(raw@) + contribs(
            frags@,
            i as int,
            lo as int,
            hi as int,
        ) =~= spans_view(raw@));
    }
    if raw.len() == 0 {
        proof {
            assert(contribs(frags@, 0, lo as int, hi as int).len() == 0);
        }
        None
    } else {
        let merged = merge_adjacent(&raw);
        proof {
            lemma_merge_len(spans_view(raw@));
        }
        Some(merged)
    }
}

/// Offsets of well-formed fragment lists stay within `usize`.
proof fn lemma_frag_offset_bound(fs: Seq<DocFragment>, i: int)
    requires
        0 <= i <= fs.len(),
        frag_offset(fs, fs.len() as int) <= usize::MAX,
    ensures
        0 <= frag_offset(fs, i),
        i < fs.len() ==> frag_offset(fs, i) + fs[i].len + 1 <= frag_offset(fs, fs.len() as int),
    decreases fs.len() - i,
{
    lemma_frag_offset_mono(fs, 0, i);
    if i < fs.len() {
        lemma_frag_offset_mono(fs, i + 1, fs.len() as int);
    }
}

/// `frag_offset` is monotone in its index.
pub proof fn lemma_frag_offset_mono(fs: Seq<DocFragment>, i: int, j: int)
    requires
        0 <= i <= j,
    ensures
        frag_offset(fs, i) <= frag_offset(fs, j),
    decreases j - i,
{
    if i < j {
        lemma_frag_offset_mono(fs, i, j - 1);
    }
}

/// The merged origin spans of all the fragments.
pub fn span_all_comments(frags: &Vec<DocFragment>) -> (r: Vec<SrcSpan>)
    ensures
        spans_view(r@) == merge_adjacent_spec(
            all_spans(frags@, 0),
        ),
{
    let mut raw: Vec<SrcSpan> = Vec::new();
    let mut i: usize = 0;
    while i < frags.len()
        invariant
            i <= frags@.len(),
            all_spans(frags@, 0) == spans_view(raw@)
                + all_spans(frags@, i as int),
        decreases frags@.len() - i,
    {
        let f = frags[i];
        let ghost rawv = spans_view(raw@);
        raw.push(f.span);
        proof {
            assert(spans_view(raw@) =~= rawv + seq![
                (f.span.lo as int, f.span.hi as int),
            ]);
            assert(rawv + all_spans(frags@, i as int) =~= (rawv + seq![
                (f.span.lo as int, f.span.hi as int),
            ]) + all_spans(frags@, i as int + 1));
        }
        i = i + 1;
    }
    proof {
        assert(spans_view(raw@) + all_spans(
            frags@,
            i as int,
        ) =~= spans_view(raw@));
    }
    merge_adjacent(&raw)
}

/// Mapping the full range `[0, total_len)` of the logical text selects
/// every fragment whole: for fragments with non-empty text whose origin
/// span covers exactly the prefix and the text, the contributed spans are
/// the fragments' own origin spans, so the mapped result equals the
/// degenerate whole-comments case, merged the same way.
pub proof fn lemma_span_full_range(fs: Seq<DocFragment>)
    requires
        frags_wf(fs),
        forall|i: int| 0 <= i < fs.len() ==> #[trigger] fs[i].len > 0,
        forall|i: int|
            0 <= i < fs.len() ==> #[trigger] fs[i].span.hi == fs[i].span.lo
                + DOC_COMMENT_PREFIX_LEN + fs[i].len,
    ensures
        contribs(fs, 0, 0, total_len(fs)) == all_spans(fs, 0),
        merge_adjacent_spec(contribs(fs, 0, 0, total_len(fs))) == merge_adjacent_spec(
            all_spans(fs, 0),
        ),
{
    lemma_span_full_range_from(fs, 0);
}

/// Induction step of [`lemma_span_full_range`] over the fragment index.
proof fn lemma_span_full_range_from(fs: Seq<DocFragment>, i: int)
    requires
        frags_wf(fs),
        0 <= i <= fs.len(),
        forall|k: int| 0 <= k < fs.len() ==> #[trigger] fs[k].len > 0,
        forall|k: int|
            0 <= k < fs.len() ==> #[trigger] fs[k].span.hi == fs[k].span.lo
                + DOC_COMMENT_PREFIX_LEN + fs[k].len,
    ensures
        contribs(fs, i, 0, total_len(fs)) == all_spans(fs, i),
    decreases fs.len() - i,
{
    if i < fs.len() {
        lemma_span_full_range_from(fs, i + 1);
        lemma_frag_offset_bound(fs, i);
        lemma_frag_offset_mono(fs, i + 1, fs.len() as int);
        let off = frag_offset(fs, i);
        let c = frag_contrib(fs[i], off, 0, total_len(fs));
        assert(total_len(fs) - off >= fs[i].len);
        assert(c == Some((fs[i].span.lo as int, fs[i].span.hi as int)));
        assert(contribs(fs, i, 0, total_len(fs)) =~= all_spans(fs, i));
    }
}

} // verus!
