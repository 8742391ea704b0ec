//! Opt-in marker attributes and entry-point selection.
//!
//! The frontend exposes each item's tool attributes as lists of path
//! segments. An attribute `sniff_tool::check_unsafe` (or `check_panics`)
//! marks an item as an entry point for that property; the `_pub` suffix on
//! a crate-level attribute asks for every public local function instead.

use vstd::prelude::*;
use crate::text::str_eq;

verus! {

/// The property a marker attribute selects.
#[derive(Debug, Clone, Copy, PartialEq, Eq, Structural)]
pub enum PropertyId {
    Safety,
    Panics,
}

/// A recognised `sniff_tool` marker attribute.
#[derive(Debug, Clone, Copy, PartialEq, Eq, Structural)]
pub enum SniffToolAttr {
    CheckUnsafe,
    CheckPanics,
}

/// What [`SniffToolAttr::try_from_string`] recognises.
pub open spec fn attr_from_string_spec(s: Seq<char>) -> Option<SniffToolAttr> {
    if s == "check_unsafe"@ {
        Some(SniffToolAttr::CheckUnsafe)
    } else if s == "check_panics"@ {
        Some(SniffToolAttr::CheckPanics)
    } else {
        None
    }
}

/// What [`SniffToolAttr::try_from_string_pub`] recognises: the bare token,
/// or the token with a `_pub` suffix.
pub open spec fn attr_from_string_pub_spec(s: Seq<char>) -> Option<(SniffToolAttr, bool)> {
    if s == "check_unsafe"@ {
        Some((SniffToolAttr::CheckUnsafe, false))
    } else if s == "check_panics"@ {
        Some((SniffToolAttr::CheckPanics, false))
    } else if s == "check_unsafe_pub"@ {
        Some((SniffToolAttr::CheckUnsafe, true))
    } else if s == "check_panics_pub"@ {
        Some((SniffToolAttr::CheckPanics, true))
    } else {
        None
    }
}

impl SniffToolAttr {
    /// Parse a bare marker token.
    pub fn try_from_string(string: &str) -> (r: Option<SniffToolAttr>)
        ensures
            r == attr_from_string_spec(string@),
    {
        if str_eq(string, "check_unsafe") {
            Some(SniffToolAttr::CheckUnsafe)
        } else if str_eq(string, "check_panics") {
            Some(SniffToolAttr::CheckPanics)
        } else {
            None
        }
    }

    /// Parse a marker token that may carry a `_pub` suffix, which selects
    /// every public local function rather than one item.
    pub fn try_from_string_pub(string: &str) -> (r: Option<(SniffToolAttr, bool)>)
        ensures
            r == attr_from_string_pub_spec(string@),
    {
        if str_eq(string, "check_unsafe") {
            Some((SniffToolAttr::CheckUnsafe, false))
        } else if str_eq(string, "check_panics") {
            Some((SniffToolAttr::CheckPanics, false))
        } else if str_eq(string, "check_unsafe_pub") {
            Some((SniffToolAttr::CheckUnsafe, true))
        } else if str_eq(string, "check_panics_pub") {
            Some((SniffToolAttr::CheckPanics, true))
        } else {
            None
        }
    }

    /// The property this marker selects.
    pub fn property(self) -> (p: PropertyId)
        ensures
            p == self.spec_property(),
    {
        match self {
            SniffToolAttr::CheckUnsafe => PropertyId::Safety,
            SniffToolAttr::CheckPanics => PropertyId::Panics,
        }
    }

    /// The property this marker selects.
    pub open spec fn spec_property(self) -> PropertyId {
        match self {
            SniffToolAttr::CheckUnsafe => PropertyId::Safety,
            SniffToolAttr::CheckPanics => PropertyId::Panics,
        }
    }
}

/// The marker token of an attribute written `sniff_tool::<token>`, if the
/// attribute has exactly that shape.
pub open spec fn attr_token(a: Seq<Seq<char>>) -> Option<Seq<char>> {
    if a.len() == 2 && a[0] == "sniff_tool"@ {
        Some(a[1])
    } else {
        None
    }
}

/// The views of a list of attribute paths.
pub open spec fn attrs_view(attrs: Seq<Vec<String>>) -> Seq<Seq<Seq<char>>> {
    attrs.map_values(|a: Vec<String>| a@.map_values(|s: String| s@))
}

/// The recognised markers among the attributes `attrs[i..]`, in order.
pub open spec fn sniff_tool_attrs_spec(attrs: Seq<Seq<Seq<char>>>, i: int) -> Seq<SniffToolAttr>
    decreases attrs.len() - i,
{
    if i < 0 || i >= attrs.len() {
        Seq::empty()
    } else {
        let rest = sniff_tool_attrs_spec(attrs, i + 1);
        match attr_token(attrs[i]) {
            Some(w) => match attr_from_string_spec(w) {
                Some(a) => seq![a] + rest,
                None => rest,
            },
            None => rest,
        }
    }
}

/// The recognised global markers (with their `_pub` flag) among the
/// attributes `attrs[i..]`, in order.
pub open spec fn sniff_tool_attrs_pub_spec(attrs: Seq<Seq<Seq<char>>>, i: int) -> Seq<
    (SniffToolAttr, bool),
>
    decreases attrs.len() - i,
{
    if i < 0 || i >= attrs.len() {
        Seq::empty()
    } else {
        let rest = sniff_tool_attrs_pub_spec(attrs, i + 1);
        match attr_token(attrs[i]) {
            Some(w) => match attr_from_string_pub_spec(w) {
                Some(a) => seq![a] + rest,
                None => rest,
            },
            None => rest,
        }
    }
}

/// The marker token of one attribute path, if it is `sniff_tool::<token>`.
fn attr_token_of<'a>(attr: &'a Vec<String>) -> (r: Option<&'a String>)
    ensures
        match r {
            Some(w) => attr_token(attr@.map_values(|s: String| s@)) == Some(w@),
            None => attr_token(attr@.map_values(|s: String| s@)) is None,
        },
{
    if attr.len() == 2 && str_eq(attr[0].as_str(), "sniff_tool") {
        proof {
            assert(attr@.map_values(|s: String| s@)[0] == attr@[0]@);
            assert(attr@.map_values(|s: String| s@)[1] == attr@[1]@);
        }
        Some(&attr[1])
    } else {
        proof {
            if attr@.len() == 2 {
                assert(attr@.map_values(|s: String| s@)[0] == attr@[0]@);
            }
        }
        None
    }
}

/// Collect the recognised markers among an item's attributes, in order.
pub fn get_sniff_tool_attrs(attrs: &Vec<Vec<String>>) -> (r: Vec<SniffToolAttr>)
    ensures
        r@ == sniff_tool_attrs_spec(attrs_view(attrs@), 0),
{
    let ghost av = attrs_view(attrs@);
    let mut out: Vec<SniffToolAttr> = Vec::new();
    let mut i: usize = 0;
    while i < attrs.len()
        invariant
            i <= attrs@.len(),
            av == attrs_view(attrs@),
            av.len() == attrs@.len(),
            forall|j: int|
                0 <= j < attrs@.len() ==> #[trigger] av[j] == attrs@[j]@.map_values(
                    |s: String| s@,
                ),
            sniff_tool_attrs_spec(av, 0) == out@ + sniff_tool_attrs_spec(av, i as int),
        decreases attrs@.len() - i,
    {
        let ghost pre = out@;
        match attr_token_of(&attrs[i]) {
            Some(w) => {
                match SniffToolAttr::try_from_string(w.as_str()) {
                    Some(a) => {
                        out.push(a);
                        proof {
                            assert(pre + sniff_tool_attrs_spec(av, i as int) =~= (pre + seq![a])
                                + sniff_tool_attrs_spec(av, i as int + 1));
                        }
                    },
                    None => {
                    },
                }
            },
            None => {
            },
        }
        i = i + 1;
    }
    proof {
        assert(out@ + sniff_tool_attrs_spec(av, i as int) =~= out@);
    }
    out
}

/// Collect the recognised global markers among the crate's attributes, in
/// order, each with its `_pub` flag.
pub fn get_sniff_tool_attrs_pub(attrs: &Vec<Vec<String>>) -> (r: Vec<(SniffToolAttr, bool)>)
    ensures
        r@ == sniff_tool_attrs_pub_spec(attrs_view(attrs@), 0),
{
    let ghost av = attrs_view(attrs@);
    let mut out: Vec<(SniffToolAttr, bool)> = Vec::new();
    let mut i: usize = 0;
    while i < attrs.len()
        invariant
            i <= attrs@.len(),
            av == attrs_view(attrs@),
            av.len() == attrs@.len(),
            forall|j: int|
                0 <= j < attrs@.len() ==> #[trigger] av[j] == attrs@[j]@.map_values(
                    |s: String| s@,
                ),
            sniff_tool_attrs_pub_spec(av, 0) == out@ + sniff_tool_attrs_pub_spec(av, i as int),
        decreases attrs@.len() - i,
    {
        let ghost pre = out@;
        match attr_token_of(&attrs[i]) {
            Some(w) => {
                match SniffToolAttr::try_from_string_pub(w.as_str()) {
                    Some(a) => {
                        out.push(a);
                        proof {
                            assert(pre + sniff_tool_attrs_pub_spec(av, i as int) =~= (pre + seq![a])
                                + sniff_tool_attrs_pub_spec(av, i as int + 1));
                        }
                    },
                    None => {
                    },
                }
            },
            None => {
            },
        }
        i = i + 1;
    }
    proof {
        assert(out@ + sniff_tool_attrs_pub_spec(av, i as int) =~= out@);
    }
    out
}

} // verus!
