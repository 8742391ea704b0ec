//! The condition-coverage fallback for free-form justification prose.
//!
//! When a justification has no bullet structure at all, a condition may
//! still count as considered if the case-normalized prose contains the
//! condition's name — each of its `&`- or `-`-separated words, or a known
//! synonym of such a word — as a substring. This is a deliberately soft
//! warning-reducer, not a verifier, and it runs only when the
//! configuration enables it.

use vstd::prelude::*;
use vstd::string::StringExecFns;
use crate::text::contains_chars;
use crate::text::contains_seq;
use crate::text::chars_vec;

verus! {

/// The case folding of a character sequence, as `str::to_lowercase`
/// computes it. The result depends on the characters alone.
pub uninterp spec fn lower_of(s: Seq<char>) -> Seq<char>;

/// Relies on `str::to_lowercase`: returns the lowercase equivalent of the
/// string, a function of its characters alone.
#[verifier::external_body]
pub fn lowercase(s: &str) -> (r: String)
    ensures
        r@ == lower_of(s@),
{
    s.to_lowercase()
}

/// Whether a character separates the words of a condition name.
pub open spec fn is_name_sep(c: char) -> bool {
    c == '&' || c == '-'
}

/// The offset of the first separator in `s[i..]`, or the length.
pub open spec fn sep_find(s: Seq<char>, i: int) -> int
    decreases s.len() - i,
{
    if i < 0 || i >= s.len() || is_name_sep(s[i]) {
        i
    } else {
        sep_find(s, i + 1)
    }
}

/// The words of a condition name from offset `i` on: the pieces between
/// separators, empty pieces included.
pub open spec fn name_words(s: Seq<char>, i: int) -> Seq<Seq<char>>
    decreases s.len() - i,
{
    if !(0 <= i <= s.len()) {
        Seq::empty()
    } else {
        let j = sep_find(s, i);
        if j < i {
            Seq::empty()
        } else if j >= s.len() {
            seq![s.subrange(i, s.len() as int)]
        } else {
            seq![s.subrange(i, j)] + name_words(s, j + 1)
        }
    }
}

/// The fixed synonym table: for a few known buzzwords, the alternative
/// spellings that also count.
pub open spec fn synonym_table() -> Seq<(Seq<char>, Seq<Seq<char>>)> {
    seq![
        ("validity"@, seq!["valid"@]),
        ("size"@, seq!["larger"@]),
        ("length"@, seq!["len()"@]),
        ("soundness"@, seq!["sound"@]),
        ("alignment"@, seq!["align"@]),
        ("lifetime"@, seq!["outlive"@, "live for at least"@]),
    ]
}

/// Whether the justification prose contains the word or one of its known
/// synonyms as a substring.
pub open spec fn word_or_synonym_in(just: Seq<char>, word: Seq<char>) -> bool {
    ||| contains_seq(just, word)
    ||| exists|k: int, m: int|
        #![trigger synonym_table()[k].1[m]]
        0 <= k < synonym_table().len() && synonym_table()[k].0 == word && 0 <= m
            < synonym_table()[k].1.len() && contains_seq(just, synonym_table()[k].1[m])
}

/// Whether every word of the condition name is found in the prose.
pub open spec fn buzzword_satisfied_spec(just: Seq<char>, cond_name: Seq<char>) -> bool {
    forall|w: int|
        0 <= w < name_words(cond_name, 0).len() ==> word_or_synonym_in(
            just,
            #[trigger] name_words(cond_name, 0)[w],
        )
}

/// The views of a list of character vectors.
pub open spec fn charvecs_view(v: Seq<Vec<char>>) -> Seq<Seq<char>> {
    v.map_values(|x: Vec<char>| x@)
}

/// The known synonyms of one buzzword.
///
/// Relies on nothing outside; the table is fixed.
fn similar_buzzwords(word: &Vec<char>) -> (r: Vec<Vec<char>>)
    ensures
        forall|k: int|
            0 <= k < synonym_table().len() && (#[trigger] synonym_table()[k]).0 == word@
                ==> charvecs_view(r@) == synonym_table()[k].1,
        (forall|k: int|
            0 <= k < synonym_table().len() ==> (#[trigger] synonym_table()[k]).0 != word@)
            ==> r@.len() == 0,
{
    proof {
        reveal_strlit("validity");
        reveal_strlit("valid");
        reveal_strlit("size");
        reveal_strlit("larger");
        reveal_strlit("length");
        reveal_strlit("len()");
        reveal_strlit("soundness");
        reveal_strlit("sound");
        reveal_strlit("alignment");
        reveal_strlit("align");
        reveal_strlit("lifetime");
        reveal_strlit("outlive");
        reveal_strlit("live for at least");
    }
    let mut r: Vec<Vec<char>> = Vec::new();
    if eq_lit(word, "validity") {
        r.push(chars_vec("valid"));
        proof {
            assert(charvecs_view(r@) =~= synonym_table()[0].1);
            lemma_synonym_keys_distinct();
        }
    } else if eq_lit(word, "size") {
        r.push(chars_vec("larger"));
        proof {
            assert(charvecs_view(r@) =~= synonym_table()[1].1);
            lemma_synonym_keys_distinct();
        }
    } else if eq_lit(word, "length") {
        r.push(chars_vec("len()"));
        proof {
            assert(charvecs_view(r@) =~= synonym_table()[2].1);
            lemma_synonym_keys_distinct();
        }
    } else if eq_lit(word, "soundness") {
        r.push(chars_vec("sound"));
        proof {
            assert(charvecs_view(r@) =~= synonym_table()[3].1);
            lemma_synonym_keys_distinct();
        }
    } else if eq_lit(word, "alignment") {
        r.push(chars_vec("align"));
        proof {
            assert(charvecs_view(r@) =~= synonym_table()[4].1);
            lemma_synonym_keys_distinct();
        }
    } else if eq_lit(word, "lifetime") {
        r.push(chars_vec("outlive"));
        r.push(chars_vec("live for at least"));
        proof {
            assert(charvecs_view(r@) =~= synonym_table()[5].1);
            lemma_synonym_keys_distinct();
        }
    } else {
        proof {
            assert forall|k: int| 0 <= k < synonym_table().len() implies (
            #[trigger] synonym_table()[k]).0 != word@ by {
                if k == 0 {
                } else if k == 1 {
                } else if k == 2 {
                } else if k == 3 {
                } else if k == 4 {
                } else {
                    assert(k == 5);
                }
            }
        }
    }
    r
}

/// The keys of the synonym table are pairwise distinct.
proof fn lemma_synonym_keys_distinct()
    ensures
        forall|k1: int, k2: int|
            0 <= k1 < k2 < synonym_table().len() ==> (#[trigger] synonym_table()[k1]).0 != (
            #[trigger] synonym_table()[k2]).0,
{
    reveal_strlit("validity");
    reveal_strlit("size");
    reveal_strlit("length");
    reveal_strlit("soundness");
    reveal_strlit("alignment");
    reveal_strlit("lifetime");
    assert forall|k1: int, k2: int|
        0 <= k1 < k2 < synonym_table().len() implies (#[trigger] synonym_table()[k1]).0 != (
    #[trigger] synonym_table()[k2]).0 by {
        assert("validity"@.len() == 8);
        assert("size"@.len() == 4);
        assert("length"@.len() == 6);
        assert("soundness"@.len() == 9);
        assert("alignment"@.len() == 9);
        assert("lifetime"@.len() == 8);
        assert("soundness"@[0] == 's' && "alignment"@[0] == 'a');
        assert("validity"@[0] == 'v' && "lifetime"@[0] == 'l');
    }
}

/// Whether a character vector equals a string literal's characters.
fn eq_lit(v: &Vec<char>, lit: &str) -> (r: bool)
    ensures
        r == (v@ == lit@),
{
    let lv = chars_vec(lit);
    if v.len() != lv.len() {
        return false;
    }
    let mut i: usize = 0;
    while i < v.len()
        invariant
            v@.len() == lv@.len(),
            lv@ == lit@,
            i <= v@.len(),
            forall|j: int| 0 <= j < i ==> v@[j] == lv@[j],
        decreases v@.len() - i,
    {
        if v[i] != lv[i] {
            return false;
        }
        i = i + 1;
    }
    proof {
        assert(v@ =~= lit@);
    }
    true
}

/// Whether the prose contains the word or one of its synonyms.
#[verifier::loop_isolation(false)]
pub fn contains_word_or_synonym(justification: &Vec<char>, word: &Vec<char>) -> (r: bool)
    ensures
        r == word_or_synonym_in(justification@, word@),
{
    if contains_chars(justification, word) {
        return true;
    }
    let syns = similar_buzzwords(word);
    let mut m: usize = 0;
    let ghost t = synonym_table();
    while m < syns.len()
        invariant
            m <= syns@.len(),
            forall|j: int| 0 <= j < m ==> !contains_seq(justification@, (#[trigger] syns@[j])@),
        decreases syns@.len() - m,
    {
        if contains_chars(justification, &syns[m]) {
            proof {
                let k = choose|k: int|
                    0 <= k < t.len() && (#[trigger] t[k]).0 == word@ && charvecs_view(syns@)
                        == t[k].1;
                if exists|k2: int| 0 <= k2 < t.len() && (#[trigger] t[k2]).0 == word@ {
                    assert(charvecs_view(syns@)[m as int] == (syns@[m as int])@);
                }
            }
            return true;
        }
        m = m + 1;
    }
    proof {
        if word_or_synonym_in(justification@, word@) {
            let (k, mm) = choose|k: int, mm: int|
                #![trigger t[k].1[mm]]
                0 <= k < t.len() && t[k].0 == word@ && 0 <= mm < t[k].1.len() && contains_seq(
                    justification@,
                    t[k].1[mm],
                );
            assert(charvecs_view(syns@) == t[k].1);
            assert(charvecs_view(syns@)[mm] == (syns@[mm])@);
            assert(false);
        }
    }
    false
}

/// Whether every `&`- or `-`-separated word of the condition name occurs
/// in the case-normalized prose, directly or through a synonym.
#[verifier::loop_isolation(false)]
pub fn buzzword_satisfied(justification: &Vec<char>, condition_name: &Vec<char>) -> (r: bool)
    ensures
        r == buzzword_satisfied_spec(justification@, condition_name@),
{
    let n = condition_name.len();
    let mut i: usize = 0;
    let mut w: usize = 0;
    let ghost words = name_words(condition_name@, 0);
    proof {
        lemma_name_words_index(condition_name@, 0);
    }
    loop
        invariant
            n == condition_name@.len(),
            i <= n,
            words == name_words(condition_name@, 0),
            name_words(condition_name@, i as int) == words.subrange(
                w as int,
                words.len() as int,
            ),
            w <= words.len(),
            w <= i,
            forall|j: int|
                0 <= j < w ==> word_or_synonym_in(justification@, #[trigger] words[j]),
        decreases n - i,
    {
        let j = scan_sep(condition_name, i);
        let piece = copy_range(condition_name, i, j);
        proof {
            lemma_sep_find_bounds(condition_name@, i as int);
            lemma_name_words_index(condition_name@, i as int);
            assert(name_words(condition_name@, i as int)[0] == piece@);
            assert(words.subrange(w as int, words.len() as int)[0] == words[w as int]);
            assert(words[w as int] == piece@);
        }
        if !contains_word_or_synonym(justification, &piece) {
            return false;
        }
        if j >= n {
            proof {
                assert(name_words(condition_name@, i as int).len() == 1);
                assert(w + 1 == words.len());
                assert forall|q: int| 0 <= q < words.len() implies word_or_synonym_in(
                    justification@,
                    #[trigger] words[q],
                ) by {
                    if q == w {
                        assert(words[q] == piece@);
                    }
                }
            }
            return true;
        }
        proof {
            assert(name_words(condition_name@, i as int) =~= seq![piece@] + name_words(
                condition_name@,
                j as int + 1,
            ));
            assert(name_words(condition_name@, j as int + 1) =~= words.subrange(
                w as int,
                words.len() as int,
            ).drop_first());
            assert(words.subrange(w as int, words.len() as int).drop_first() =~= words.subrange(
                w as int + 1,
                words.len() as int,
            ));
        }
        i = j + 1;
        w = w + 1;
    }
}

/// Each suffix of the word list is non-empty and starts with the piece up
/// to the next separator.
proof fn lemma_name_words_index(s: Seq<char>, i: int)
    requires
        0 <= i <= s.len(),
    ensures
        name_words(s, i).len() >= 1,
        name_words(s, i)[0] == s.subrange(i, sep_find(s, i)),
    decreases s.len() - i,
{
    lemma_sep_find_bounds(s, i);
    if sep_find(s, i) >= s.len() {
        assert(sep_find(s, i) == s.len());
        assert(name_words(s, i) == seq![s.subrange(i, s.len() as int)]);
    } else {
        assert(name_words(s, i)[0] == s.subrange(i, sep_find(s, i)));
    }
}

/// `sep_find` stays within the text.
proof fn lemma_sep_find_bounds(s: Seq<char>, i: int)
    requires
        0 <= i <= s.len(),
    ensures
        i <= sep_find(s, i) <= s.len(),
        forall|k: int| i <= k < sep_find(s, i) ==> !is_name_sep(s[k]),
        sep_find(s, i) < s.len() ==> is_name_sep(s[sep_find(s, i)]),
    decreases s.len() - i,
{
    if i < s.len() && !is_name_sep(s[i]) {
        lemma_sep_find_bounds(s, i + 1);
    }
}

/// Computes [`sep_find`].
fn scan_sep(v: &Vec<char>, i: usize) -> (r: usize)
    requires
        i <= v@.len(),
    ensures
        r == sep_find(v@, i as int),
        i <= r <= v@.len(),
{
    let mut j: usize = i;
    while j < v.len() && v[j] != '&' && v[j] != '-'
        invariant
            i <= j <= v@.len(),
            sep_find(v@, i as int) == sep_find(v@, j as int),
        decreases v@.len() - j,
    {
        j = j + 1;
    }
    j
}

/// A copy of the characters `v[lo..hi]`.
fn copy_range(v: &Vec<char>, lo: usize, hi: usize) -> (r: Vec<char>)
    requires
        lo <= hi <= v@.len(),
    ensures
        r@ == v@.subrange(lo as int, hi as int),
{
    let mut out: Vec<char> = Vec::new();
    let mut i: usize = lo;
    while i < hi
        invariant
            lo <= i <= hi <= v@.len(),
            out@ == v@.subrange(lo as int, i as int),
        decreases hi - i,
    {
        out.push(v[i]);
        i = i + 1;
        proof {
            assert(out@ =~= v@.subrange(lo as int, i as int));
        }
    }
    out
}

} // verus!
