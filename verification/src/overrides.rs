//! Override annotations loaded from a configuration file.
//!
//! When documentation cannot be attached to a function directly (for
//! functions in dependencies), an external file maps fully-qualified
//! function names to a literal requirement-section string. The file is a
//! table keyed by function name; each entry must be a table holding a
//! string-valued `requirements` field. Reading the file and parsing its
//! syntax is the I/O layer's work; it hands the core the parsed document
//! as plain values and the core checks the schema, failing on the first
//! malformed entry and never returning partial results. A missing file is
//! simply an empty document, not an error.

use vstd::prelude::*;
use crate::text::str_eq;

verus! {

/// One field value of an override-file entry, as far as the schema check
/// reads it: a string, or anything else.
#[derive(Debug)]
pub enum OverrideField {
    Str(String),
    Other,
}

/// One value of the override document: a table of named fields, or
/// anything else.
#[derive(Debug)]
pub enum OverrideValue {
    Table(Vec<(String, OverrideField)>),
    Other,
}

/// The whole override document: the top-level value, one entry per
/// function name.
#[derive(Debug)]
pub enum OverrideDoc {
    Table(Vec<(String, OverrideValue)>),
    Other,
}

/// Why an override file was rejected.
#[derive(Debug)]
pub enum TomlParseError {
    /// Reading the file failed; the message comes from the I/O layer.
    Io(String),
    /// The file's syntax failed to parse; the message comes from the
    /// syntax parser.
    Toml(String),
    /// The file parsed but has the wrong shape.
    Schema(SchemaIssue),
}

/// The shape violations the schema check reports, each naming the
/// offending function-name key.
#[derive(Debug)]
pub enum SchemaIssue {
    /// The top level is not a table.
    NotATable,
    /// This function's entry is not a table.
    EntryNotATable(String),
    /// This function's entry has no `requirements` field.
    MissingRequirements(String),
    /// This function's `requirements` field is not a string.
    RequirementsNotAString(String),
}

/// The shape of one entry, at specification level.
pub enum EntryShape {
    Good(Seq<char>),
    NotTable,
    NoRequirements,
    NotString,
}

/// The first `requirements` field among `fields[i..]`.
pub open spec fn field_lookup(fields: Seq<(String, OverrideField)>, i: int) -> Option<
    OverrideField,
>
    decreases fields.len() - i,
{
    if i < 0 || i >= fields.len() {
        None
    } else if fields[i].0@ == "requirements"@ {
        Some(fields[i].1)
    } else {
        field_lookup(fields, i + 1)
    }
}

/// The shape of one entry: its requirement string when it is a table
/// with a string-valued `requirements` field, and what is wrong with it
/// otherwise.
pub open spec fn entry_shape(v: OverrideValue) -> EntryShape {
    match v {
        OverrideValue::Other => EntryShape::NotTable,
        OverrideValue::Table(fields) => match field_lookup(fields@, 0) {
            None => EntryShape::NoRequirements,
            Some(OverrideField::Str(s)) => EntryShape::Good(s@),
            Some(OverrideField::Other) => EntryShape::NotString,
        },
    }
}

/// The function-name-to-requirements map of the first `i` entries, later
/// entries overriding earlier ones with the same name.
pub open spec fn overrides_map(es: Seq<(String, OverrideValue)>, i: int) -> Map<
    Seq<char>,
    Seq<char>,
>
    decreases i,
{
    if i <= 0 {
        Map::empty()
    } else {
        let m = overrides_map(es, i - 1);
        match entry_shape(es[i - 1].1) {
            EntryShape::Good(s) => m.insert(es[i - 1].0@, s),
            _ => m,
        }
    }
}

/// The requirements map of the raw entry list kept inside a
/// [`TomlAnnotation`].
pub open spec fn entries_map(es: Seq<(String, String)>, i: int) -> Map<Seq<char>, Seq<char>>
    decreases i,
{
    if i <= 0 {
        Map::empty()
    } else {
        entries_map(es, i - 1).insert(es[i - 1].0@, es[i - 1].1@)
    }
}

/// The last entry among `es[..i]` whose key is `k`.
pub open spec fn rev_lookup(es: Seq<(String, String)>, k: Seq<char>, i: int) -> Option<Seq<char>>
    decreases i,
{
    if i <= 0 {
        None
    } else if es[i - 1].0@ == k {
        Some(es[i - 1].1@)
    } else {
        rev_lookup(es, k, i - 1)
    }
}

/// The map of the entry list answers exactly as a backwards scan does.
proof fn lemma_entries_map_lookup(es: Seq<(String, String)>, k: Seq<char>, i: int)
    requires
        0 <= i <= es.len(),
    ensures
        entries_map(es, i).contains_key(k) <==> rev_lookup(es, k, i) is Some,
        entries_map(es, i).contains_key(k) ==> Some(entries_map(es, i)[k]) == rev_lookup(
            es,
            k,
            i,
        ),
    decreases i,
{
    if i > 0 {
        lemma_entries_map_lookup(es, k, i - 1);
    }
}

/// Annotations parsed from an override file: a map from fully-qualified
/// function names to their literal requirement-section strings.
#[derive(Debug)]
pub struct TomlAnnotation {
    entries: Vec<(String, String)>,
}

impl View for TomlAnnotation {
    type V = Map<Seq<char>, Seq<char>>;

    closed spec fn view(&self) -> Map<Seq<char>, Seq<char>> {
        entries_map(self.entries@, self.entries@.len() as int)
    }
}

impl Default for TomlAnnotation {
    /// The empty annotation set, used when no override file exists.
    fn default() -> (r: TomlAnnotation)
        ensures
            r@ == Map::<Seq<char>, Seq<char>>::empty(),
    {
        TomlAnnotation { entries: Vec::new() }
    }
}

impl TomlAnnotation {
    /// Check the schema of a parsed override document and build the
    /// annotation map.
    ///
    /// Succeeds exactly when the top level is a table and every entry is
    /// a table with a string-valued `requirements` field; the result
    /// then maps each function name to its requirement string, later
    /// entries winning. Fails on the first offending entry, naming it;
    /// nothing partial is ever returned.
    pub fn from_entries(doc: OverrideDoc) -> (r: Result<TomlAnnotation, TomlParseError>)
        ensures
            match r {
                Ok(t) => doc matches OverrideDoc::Table(es) && (forall|i: int|
                    0 <= i < es@.len() ==> entry_shape((#[trigger] es@[i]).1) is Good) && t@
                    == overrides_map(es@, es@.len() as int),
                Err(TomlParseError::Schema(SchemaIssue::NotATable)) => doc is Other,
                Err(TomlParseError::Schema(SchemaIssue::EntryNotATable(n))) => doc matches
                    OverrideDoc::Table(es) && exists|i: int|
                    0 <= i < es@.len() && (#[trigger] es@[i]).0@ == n@ && entry_shape(es@[i].1)
                        is NotTable && (forall|j: int|
                        0 <= j < i ==> entry_shape((#[trigger] es@[j]).1) is Good),
                Err(TomlParseError::Schema(SchemaIssue::MissingRequirements(n))) => doc matches
                    OverrideDoc::Table(es) && exists|i: int|
                    0 <= i < es@.len() && (#[trigger] es@[i]).0@ == n@ && entry_shape(es@[i].1)
                        is NoRequirements && (forall|j: int|
                        0 <= j < i ==> entry_shape((#[trigger] es@[j]).1) is Good),
                Err(TomlParseError::Schema(SchemaIssue::RequirementsNotAString(n))) => doc matches
                    OverrideDoc::Table(es) && exists|i: int|
                    0 <= i < es@.len() && (#[trigger] es@[i]).0@ == n@ && entry_shape(es@[i].1)
                        is NotString && (forall|j: int|
                        0 <= j < i ==> entry_shape((#[trigger] es@[j]).1) is Good),
                Err(TomlParseError::Io(_)) => false,
                Err(TomlParseError::Toml(_)) => false,
            },
    {
        let es = match doc {
            OverrideDoc::Other => {
                return Err(TomlParseError::Schema(SchemaIssue::NotATable));
            },
            OverrideDoc::Table(es) => es,
        };
        let mut out: Vec<(String, String)> = Vec::new();
        let mut i: usize = 0;
        while i < es.len()
            invariant
                doc == OverrideDoc::Table(es),
                i <= es@.len(),
                out@.len() == i,
                forall|j: int| 0 <= j < i ==> entry_shape((#[trigger] es@[j]).1) is Good,
                forall|j: int|
                    0 <= j < i ==> (#[trigger] out@[j]).0@ == es@[j].0@ && EntryShape::Good(
                        out@[j].1@,
                    ) == entry_shape(es@[j].1),
                entries_map(out@, i as int) == overrides_map(es@, i as int),
            decreases es@.len() - i,
        {
            let name = es[i].0.clone();
            match &es[i].1 {
                OverrideValue::Other => {
                    proof {
                        assert(es@[i as int].0@ == name@ && entry_shape(es@[i as int].1)
                            is NotTable);
                    }
                    return Err(
                        TomlParseError::Schema(SchemaIssue::EntryNotATable(name)),
                    );
                },
                OverrideValue::Table(fields) => {
                    match lookup_requirements(fields) {
                        None => {
                            proof {
                                assert(es@[i as int].0@ == name@ && entry_shape(es@[i as int].1)
                                    is NoRequirements);
                            }
                            return Err(
                                TomlParseError::Schema(SchemaIssue::MissingRequirements(name)),
                            );
                        },
                        Some(None) => {
                            proof {
                                assert(es@[i as int].0@ == name@ && entry_shape(es@[i as int].1)
                                    is NotString);
                            }
                            return Err(
                                TomlParseError::Schema(
                                    SchemaIssue::RequirementsNotAString(name),
                                ),
                            );
                        },
                        Some(Some(s)) => {
                            let ghost old_out = out@;
                            out.push((name, s));
                            proof {
                                assert(out@[i as int].0@ == es@[i as int].0@);
                                assert(entries_map(out@, i as int + 1) == entries_map(
                                    old_out,
                                    i as int,
                                ).insert(out@[i as int].0@, out@[i as int].1@)) by {
                                    lemma_entries_map_prefix(out@, old_out, i as int);
                                }
                            }
                        },
                    }
                },
            }
            i = i + 1;
        }
        Ok(TomlAnnotation { entries: out })
    }

    /// Retrieve the override requirement string for a function name, if
    /// the file has one.
    pub fn get_requirements_string(&self, function_name: &str) -> (r: Option<&String>)
        ensures
            match r {
                Some(s) => self@.contains_key(function_name@) && self@[function_name@] == s@,
                None => !self@.contains_key(function_name@),
            },
    {
        let mut i: usize = self.entries.len();
        while i > 0
            invariant
                i <= self.entries@.len(),
                rev_lookup(self.entries@, function_name@, self.entries@.len() as int)
                    == rev_lookup(self.entries@, function_name@, i as int),
            decreases i,
        {
            if str_eq(self.entries[i - 1].0.as_str(), function_name) {
                proof {
                    lemma_entries_map_lookup(
                        self.entries@,
                        function_name@,
                        self.entries@.len() as int,
                    );
                }
                return Some(&self.entries[i - 1].1);
            }
            i = i - 1;
        }
        proof {
            lemma_entries_map_lookup(
                self.entries@,
                function_name@,
                self.entries@.len() as int,
            );
        }
        None
    }
}

/// Entry lists that agree on their first `i` entries build the same map
/// over them.
proof fn lemma_entries_map_prefix(es2: Seq<(String, String)>, es: Seq<(String, String)>, i: int)
    requires
        0 <= i <= es.len(),
        i <= es2.len(),
        forall|j: int| 0 <= j < i ==> es2[j] == es[j],
    ensures
        entries_map(es2, i) == entries_map(es, i),
    decreases i,
{
    if i > 0 {
        lemma_entries_map_prefix(es2, es, i - 1);
        assert(es2[i - 1] == es[i - 1]);
    }
}

/// The first `requirements` field of an entry's field table: `Some(None)`
/// when it exists but is not a string, `Some(Some(s))` when it is the
/// string `s`, `None` when there is no such field.
fn lookup_requirements(fields: &Vec<(String, OverrideField)>) -> (r: Option<Option<String>>)
    ensures
        match r {
            None => field_lookup(fields@, 0) is None,
            Some(None) => field_lookup(fields@, 0) matches Some(OverrideField::Other),
            Some(Some(s)) => field_lookup(fields@, 0) matches Some(OverrideField::Str(s2))
                && s2@ == s@,
        },
{
    let mut i: usize = 0;
    while i < fields.len()
        invariant
            i <= fields@.len(),
            field_lookup(fields@, 0) == field_lookup(fields@, i as int),
        decreases fields@.len() - i,
    {
        if str_eq(fields[i].0.as_str(), "requirements") {
            match &fields[i].1 {
                OverrideField::Str(s) => {
                    return Some(Some(s.clone()));
                },
                OverrideField::Other => {
                    return Some(None);
                },
            }
        }
        i = i + 1;
    }
    None
}

} // verus!
