//! Validated condition names.
//!
//! A condition name is the identifier before the colon in an annotation
//! bullet. It must consist of exactly one non-whitespace token; hyphens and
//! underscores are permitted. Invalid input yields a distinguishable reason.

use vstd::prelude::*;

verus! {

/// The whitespace characters a condition name must not contain.
pub open spec fn name_wsp(c: char) -> bool {
    c == ' ' || c == '\n' || c == '\t'
}

/// Whether `s` contains any of the characters a name must not contain.
pub open spec fn has_name_wsp(s: Seq<char>) -> bool {
    exists|i: int| 0 <= i < s.len() && name_wsp(s[i])
}

/// The number of maximal non-whitespace tokens in `s`, counted by their
/// first character.
pub open spec fn word_count(s: Seq<char>) -> nat
    decreases s.len(),
{
    if s.len() == 0 {
        0
    } else {
        word_count(s.drop_last()) + if !name_wsp(s.last()) && (s.len() == 1 || name_wsp(
            s[s.len() - 2],
        )) {
            1nat
        } else {
            0nat
        }
    }
}

/// Why a raw string is not a valid condition name.
#[derive(Debug, Clone, Copy, PartialEq, Eq, Structural)]
pub enum InvalidConditionNameReason {
    /// The raw text is one token plus stray whitespace.
    TrailingWhitespace,
    /// The raw text contains two or more tokens.
    MultipleWords,
}

/// Checks that `name` is a single word with no whitespace at all.
///
/// Returns the name unchanged when it is valid. When it contains
/// whitespace, the reason distinguishes one token with stray whitespace
/// from several tokens.
pub fn check_single_word(name: &str) -> (r: Result<String, InvalidConditionNameReason>)
    ensures
        match r {
            Ok(s) => s@ == name@ && !has_name_wsp(name@),
            Err(InvalidConditionNameReason::MultipleWords) => has_name_wsp(name@) && word_count(
                name@,
            ) >= 2,
            Err(InvalidConditionNameReason::TrailingWhitespace) => has_name_wsp(name@)
                && word_count(name@) <= 1,
        },
{
    let chars = crate::text::chars_vec(name);
    let mut found_wsp = false;
    let mut words: usize = 0;
    let mut i: usize = 0;
    while i < chars.len()
        invariant
            chars@ == name@,
            i <= chars@.len(),
            found_wsp == exists|j: int| 0 <= j < i && name_wsp(chars@[j]),
            words == word_count(chars@.subrange(0, i as int)),
            words <= i,
        decreases chars@.len() - i,
    {
        let c = chars[i];
        let c_is_wsp = c == ' ' || c == '\n' || c == '\t';
        let prev_is_wsp = if i == 0 {
            true
        } else {
            let p = chars[i - 1];
            p == ' ' || p == '\n' || p == '\t'
        };
        if c_is_wsp {
            found_wsp = true;
        }
        if !c_is_wsp && prev_is_wsp {
            words = words + 1;
        }
        i = i + 1;
        proof {
            let pre = chars@.subrange(0, i as int);
            assert(pre.drop_last() =~= chars@.subrange(0, i - 1));
            assert(pre.last() == chars@[i - 1]);
        }
    }
    proof {
        assert(chars@.subrange(0, chars@.len() as int) =~= chars@);
    }
    if found_wsp {
        if words >= 2 {
            Err(InvalidConditionNameReason::MultipleWords)
        } else {
            Err(InvalidConditionNameReason::TrailingWhitespace)
        }
    } else {
        Ok(crate::text::string_from_range(&chars, 0, chars.len()))
    }
}

/// A validated identifier naming one precondition.
///
/// The construction invariant: the text contains no whitespace, so the
/// name is exactly one token.
#[derive(Debug)]
pub struct ConditionName {
    name: String,
}

impl View for ConditionName {
    type V = Seq<char>;

    closed spec fn view(&self) -> Seq<char> {
        self.name@
    }
}

impl ConditionName {
    /// The construction invariant every value of this type satisfies.
    pub open spec fn wf(&self) -> bool {
        !has_name_wsp(self@)
    }

    /// Construct a new condition name, checking all invariants.
    ///
    /// For all strings containing whitespace this fails: with
    /// `MultipleWords` when the string splits into two or more non-empty
    /// tokens, and with `TrailingWhitespace` otherwise.
    pub fn try_new(name: &str) -> (r: Result<ConditionName, InvalidConditionNameReason>)
        ensures
            match r {
                Ok(n) => n@ == name@ && n.wf(),
                Err(InvalidConditionNameReason::MultipleWords) => has_name_wsp(name@)
                    && word_count(name@) >= 2,
                Err(InvalidConditionNameReason::TrailingWhitespace) => has_name_wsp(name@)
                    && word_count(name@) <= 1,
            },
            r is Ok <==> !has_name_wsp(name@),
    {
        match check_single_word(name) {
            Ok(s) => Ok(ConditionName { name: s }),
            Err(reason) => Err(reason),
        }
    }

    /// The validated text of the name.
    pub fn as_str(&self) -> (s: &str)
        ensures
            s@ == self@,
    {
        self.name.as_str()
    }
}

impl Clone for ConditionName {
    /// Clones preserve the name's text.
    fn clone(&self) -> (r: Self)
        ensures
            r@ == self@,
    {
        ConditionName { name: self.name.clone() }
    }
}

impl PartialEq for ConditionName {
    fn eq(&self, other: &Self) -> (r: bool) {
        self.name == other.name
    }
}

impl Eq for ConditionName {

}

impl vstd::std_specs::cmp::PartialEqSpecImpl for ConditionName {
    open spec fn obeys_eq_spec() -> bool {
        true
    }

    open spec fn eq_spec(&self, other: &Self) -> bool {
        self@ == other@
    }
}

} // verus!
