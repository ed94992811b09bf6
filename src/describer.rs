//! The describer: exact descriptions keyed by path, and patterns that describe
//! the children of a directory.
use vstd::prelude::*;

use std::collections::HashMap;

use crate::json::{
    json_members, json_string_table, read_members, read_string_table, reads_back, tables_map,
    well_keyed, write_tables, write_tables_pretty, DeserializeError, SerializeError,
};
use crate::text_map::{distinct_keys, entries_map, TextMap};

verus! {

/// Separates a directory from the name of one of its children.
pub const SEPARATOR: char = '/';

/// Stands for a child's name in a pattern.
pub const NAME_PLACEHOLDER: char = '*';

/// The name of the JSON member that holds the exact descriptions.
pub const DESCRIPTIONS_FIELD: &'static str = "descriptions";

/// The name of the JSON member that holds the patterns.
pub const PATTERNS_FIELD: &'static str = "patterns";

/// The exact descriptions and the patterns that a JSON text holds, if it is an
/// object with both members, each an object of strings. Other members are ignored.
pub open spec fn json_document(
    text: Seq<char>,
) -> Option<(Map<Seq<char>, Seq<char>>, Map<Seq<char>, Seq<char>>)> {
    match json_members(text) {
        Some(m) => if m.contains_key(DESCRIPTIONS_FIELD@) && m.contains_key(PATTERNS_FIELD@) {
            match (json_string_table(m[DESCRIPTIONS_FIELD@]), json_string_table(m[PATTERNS_FIELD@])) {
                (Some(d), Some(p)) => Some((d, p)),
                _ => None,
            }
        } else {
            None
        },
        None => None,
    }
}

/// The entries of a `HashMap`, in no particular order.
/// Relies on `Vec::from_iter` over a `HashMap`, which yields each of its entries once.
#[verifier::external_body]
fn hash_map_entries(m: HashMap<String, String>) -> (r: Vec<(String, String)>)
    ensures
        distinct_keys(r@),
        entries_map(r@) == m.deep_view(),
{
    Vec::from_iter(m)
}

/// The position of the last occurrence of `c` in `s`, or -1 when `c` does not occur.
pub open spec fn last_index_of(s: Seq<char>, c: char) -> int
    decreases s.len(),
{
    if s.len() == 0 {
        -1
    } else if s.last() == c {
        s.len() - 1
    } else {
        last_index_of(s.drop_last(), c)
    }
}

/// `template` with every placeholder replaced by `name`.
pub open spec fn substitute(template: Seq<char>, name: Seq<char>) -> Seq<char>
    decreases template.len(),
{
    if template.len() == 0 {
        Seq::empty()
    } else {
        substitute(template.drop_last(), name) + if template.last() == NAME_PLACEHOLDER {
            name
        } else {
            seq![template.last()]
        }
    }
}

/// What the patterns say of `path`: the pattern of the directory before the last
/// separator, with the name after it put in for each placeholder.
pub open spec fn pattern_description(
    patterns: Map<Seq<char>, Seq<char>>,
    path: Seq<char>,
) -> Option<Seq<char>> {
    let i = last_index_of(path, SEPARATOR);
    if i < 0 {
        None
    } else {
        let parent = path.subrange(0, i);
        let name = path.subrange(i + 1, path.len() as int);
        if patterns.contains_key(parent) {
            Some(substitute(patterns[parent], name))
        } else {
            None
        }
    }
}

/// The description of `path`: its exact description if it has one, else what the
/// patterns say of it.
pub open spec fn described(
    descriptions: Map<Seq<char>, Seq<char>>,
    patterns: Map<Seq<char>, Seq<char>>,
    path: Seq<char>,
) -> Option<Seq<char>> {
    if descriptions.contains_key(path) {
        Some(descriptions[path])
    } else {
        pattern_description(patterns, path)
    }
}

/// `last_index_of` is the last position that holds `c`.
pub proof fn lemma_last_index_of(s: Seq<char>, c: char)
    ensures
        -1 <= last_index_of(s, c) < s.len(),
        last_index_of(s, c) >= 0 ==> s[last_index_of(s, c)] == c,
        forall|j: int| last_index_of(s, c) < j < s.len() ==> s[j] != c,
    decreases s.len(),
{
    if s.len() > 0 && s.last() != c {
        lemma_last_index_of(s.drop_last(), c);
        assert forall|j: int| last_index_of(s, c) < j < s.len() implies s[j] != c by {
            if j < s.len() - 1 {
                assert(s.drop_last()[j] == s[j]);
            }
        }
    }
}

/// A position that holds `c`, after which `c` does not occur, is `last_index_of`.
pub proof fn lemma_last_index_of_at(s: Seq<char>, c: char, i: int)
    requires
        -1 <= i < s.len(),
        i >= 0 ==> s[i] == c,
        forall|j: int| i < j < s.len() ==> s[j] != c,
    ensures
        last_index_of(s, c) == i,
{
    lemma_last_index_of(s, c);
    let k = last_index_of(s, c);
    if k < i {
        assert(s[i] == c);
    } else if i < k {
        assert(s[k] == c);
    }
}

/// Appends `c` to `s`.
/// Relies on `String::push`, which adds the character at the end.
#[verifier::external_body]
fn push_char(s: &mut String, c: char)
    ensures
        final(s)@ == old(s)@.push(c),
{
    s.push(c)
}

/// The position of the last separator in `path`, if there is one.
fn last_separator(path: &str) -> (r: Option<usize>)
    ensures
        match r {
            Some(i) => i < path@.len() && last_index_of(path@, SEPARATOR) == i,
            None => last_index_of(path@, SEPARATOR) == -1,
        },
{
    let n = path.unicode_len();
    let mut i: usize = n;
    while i > 0
        invariant
            i <= n,
            n == path@.len(),
            forall|j: int| i <= j < n ==> path@[j] != SEPARATOR,
        decreases i,
    {
        if path.get_char(i - 1) == SEPARATOR {
            proof {
                lemma_last_index_of_at(path@, SEPARATOR, i - 1);
            }
            return Some(i - 1);
        }
        i = i - 1;
    }
    proof {
        lemma_last_index_of_at(path@, SEPARATOR, -1);
    }
    None
}

/// `template` with every placeholder replaced by `name`.
fn fill_placeholders(template: &str, name: &str) -> (r: String)
    ensures
        r@ == substitute(template@, name@),
{
    let n = template.unicode_len();
    let mut r = String::new();
    let mut i: usize = 0;
    while i < n
        invariant
            i <= n,
            n == template@.len(),
            r@ == substitute(template@.subrange(0, i as int), name@),
        decreases n - i,
    {
        let c = template.get_char(i);
        if c == NAME_PLACEHOLDER {
            r.append(name);
        } else {
            push_char(&mut r, c);
        }
        proof {
            let next = template@.subrange(0, i + 1);
            assert(next.drop_last() =~= template@.subrange(0, i as int));
            assert(next.last() == c);
            if c != NAME_PLACEHOLDER {
                assert(substitute(next.drop_last(), name@).push(c) =~= substitute(
                    next.drop_last(),
                    name@,
                ) + seq![c]);
            }
        }
        i = i + 1;
    }
    assert(template@.subrange(0, n as int) =~= template@);
    r
}

/// Holds descriptions of files and directories.
///
/// An exact description is retrieved as it is. A pattern is stored under a
/// directory and describes the directory's children: each placeholder in it
/// stands for the child's name. Where both apply, the exact description wins.
#[derive(Debug)]
pub struct Describer {
    descriptions: TextMap,
    patterns: TextMap,
}

impl Describer {
    /// Each of the two maps is well formed.
    pub closed spec fn wf(&self) -> bool {
        self.descriptions.wf() && self.patterns.wf()
    }

    /// The exact descriptions, by path.
    pub closed spec fn descriptions(&self) -> Map<Seq<char>, Seq<char>> {
        self.descriptions@
    }

    /// The patterns, by the directory whose children they describe.
    pub closed spec fn patterns(&self) -> Map<Seq<char>, Seq<char>> {
        self.patterns@
    }

    /// What `describe` returns for `path`.
    pub open spec fn description_of(&self, path: Seq<char>) -> Option<Seq<char>> {
        described(self.descriptions(), self.patterns(), path)
    }

    /// A describer with no descriptions and no patterns.
    pub fn new() -> (r: Describer)
        ensures
            r.wf(),
            r.descriptions() == Map::<Seq<char>, Seq<char>>::empty(),
            r.patterns() == Map::<Seq<char>, Seq<char>>::empty(),
    {
        Describer { descriptions: TextMap::new(), patterns: TextMap::new() }
    }

    /// A describer holding the given exact descriptions and patterns.
    pub fn new_with(d: HashMap<String, String>, p: HashMap<String, String>) -> (r: Describer)
        ensures
            r.wf(),
            r.descriptions() == d.deep_view(),
            r.patterns() == p.deep_view(),
    {
        let descriptions = TextMap::from_entries(hash_map_entries(d));
        let patterns = TextMap::from_entries(hash_map_entries(p));
        Describer { descriptions, patterns }
    }

    /// The members that `to_json` writes: the exact descriptions and the patterns,
    /// each under its name.
    pub open spec fn json_tables_of(&self) -> Map<Seq<char>, Map<Seq<char>, Seq<char>>> {
        map![DESCRIPTIONS_FIELD@ => self.descriptions(), PATTERNS_FIELD@ => self.patterns()]
    }

    /// Reads a describer from JSON text: an object with a member `descriptions`
    /// and a member `patterns`, each an object of strings; other members are
    /// ignored. Fails when the text is not a JSON object, lacks one of the two
    /// members, or one of them is not an object of strings.
    pub fn new_from_json(json: &str) -> (r: Result<Describer, DeserializeError>)
        ensures
            r is Ok <==> json_document(json@) is Some,
            r matches Ok(d) ==> d.wf() && json_document(json@) == Some((d.descriptions(), d.patterns())),
            match json_members(json@) {
                None => r matches Err(DeserializeError::Malformed(_)),
                Some(m) => if !m.contains_key(DESCRIPTIONS_FIELD@) {
                    (r matches Err(DeserializeError::MissingField(f)) && f@ == DESCRIPTIONS_FIELD@)
                } else if json_string_table(m[DESCRIPTIONS_FIELD@]) is None {
                    r matches Err(DeserializeError::Malformed(_))
                } else if !m.contains_key(PATTERNS_FIELD@) {
                    (r matches Err(DeserializeError::MissingField(f)) && f@ == PATTERNS_FIELD@)
                } else if json_string_table(m[PATTERNS_FIELD@]) is None {
                    r matches Err(DeserializeError::Malformed(_))
                } else {
                    r is Ok
                },
            },
    {
        let members = match read_members(json) {
            Ok(members) => TextMap::from_entries(members),
            Err(e) => return Err(DeserializeError::Malformed(e)),
        };
        let descriptions = match members.get(DESCRIPTIONS_FIELD) {
            Some(text) => match read_string_table(text.as_str()) {
                Ok(table) => TextMap::from_entries(table),
                Err(e) => return Err(DeserializeError::Malformed(e)),
            },
            None => return Err(DeserializeError::MissingField(DESCRIPTIONS_FIELD.to_owned())),
        };
        let patterns = match members.get(PATTERNS_FIELD) {
            Some(text) => match read_string_table(text.as_str()) {
                Ok(table) => TextMap::from_entries(table),
                Err(e) => return Err(DeserializeError::Malformed(e)),
            },
            None => return Err(DeserializeError::MissingField(PATTERNS_FIELD.to_owned())),
        };
        Ok(Describer { descriptions, patterns })
    }

    /// Writes the describer as JSON text: an object with the exact descriptions
    /// under `descriptions` and the patterns under `patterns`. When `pretty` holds
    /// the text is indented over several lines; otherwise it has no line break.
    /// What it writes, `new_from_json` reads back.
    pub fn to_json(&self, pretty: bool) -> (r: Result<String, SerializeError>)
        requires
            self.wf(),
        ensures
            r is Ok,
            r matches Ok(text) ==> reads_back(text@, self.json_tables_of()),
            r matches Ok(text) ==> (pretty <==> text@.contains('\n')),
    {
        let tables: Vec<(String, Vec<(String, String)>)> = vec![
            (DESCRIPTIONS_FIELD.to_owned(), self.descriptions.to_entries()),
            (PATTERNS_FIELD.to_owned(), self.patterns.to_entries()),
        ];
        proof {
            reveal_strlit("descriptions");
            reveal_strlit("patterns");
            assert(DESCRIPTIONS_FIELD@ != PATTERNS_FIELD@) by {
                assert(DESCRIPTIONS_FIELD@[0] != PATTERNS_FIELD@[0]);
            }
            assert(well_keyed(tables@)) by {
                assert(distinct_keys(tables@[0].1@));
                assert(distinct_keys(tables@[1].1@));
            }
            let t = tables@;
            assert(t.drop_last().drop_last() =~= Seq::<(String, Vec<(String, String)>)>::empty());
            assert(t.drop_last().last() == t[0]);
            assert(tables_map(t.drop_last().drop_last()) == Map::<Seq<char>, Map<Seq<char>, Seq<char>>>::empty());
            assert(t[0].0@ == DESCRIPTIONS_FIELD@);
            assert(entries_map(t[0].1@) == self.descriptions());
            assert(tables_map(t.drop_last()) == Map::<Seq<char>, Map<Seq<char>, Seq<char>>>::empty().insert(
                DESCRIPTIONS_FIELD@,
                self.descriptions(),
            ));
            assert(tables_map(t) == tables_map(t.drop_last()).insert(PATTERNS_FIELD@, self.patterns()));
            assert(tables_map(t) =~= self.json_tables_of());
        }
        let written = if pretty {
            write_tables_pretty(&tables)
        } else {
            write_tables(&tables)
        };
        match written {
            Ok(text) => Ok(text),
            Err(cause) => Err(SerializeError { cause }),
        }
    }

    /// The description of `path`, or `None` if nothing describes it. An exact
    /// description is returned as it is; otherwise the pattern of the directory
    /// before the last separator is returned, with every placeholder replaced
    /// by the name after that separator.
    pub fn describe(&self, path: &str) -> (r: Option<String>)
        requires
            self.wf(),
        ensures
            match r {
                Some(s) => self.description_of(path@) == Some(s@),
                None => self.description_of(path@) is None,
            },
    {
        match self.descriptions.get(path) {
            Some(d) => Some(d.clone()),
            None => self.describe_using_pattern(path),
        }
    }

    /// What the patterns say of `path`.
    fn describe_using_pattern(&self, path: &str) -> (r: Option<String>)
        requires
            self.wf(),
        ensures
            match r {
                Some(s) => pattern_description(self.patterns(), path@) == Some(s@),
                None => pattern_description(self.patterns(), path@) is None,
            },
    {
        match last_separator(path) {
            None => None,
            Some(i) => {
                let n = path.unicode_len();
                let parent = path.substring_char(0, i);
                let name = path.substring_char(i + 1, n);
                match self.patterns.get(parent) {
                    Some(p) => Some(fill_placeholders(p.as_str(), name)),
                    None => None,
                }
            },
        }
    }

    /// Stores `desc` as the exact description of `path`, replacing any earlier one.
    pub fn add_description(&mut self, path: &str, desc: &str)
        requires
            old(self).wf(),
        ensures
            final(self).wf(),
            final(self).descriptions() == old(self).descriptions().insert(path@, desc@),
            final(self).patterns() == old(self).patterns(),
    {
        self.descriptions.insert(path.to_owned(), desc.to_owned());
    }

    /// Stores `desc` as the pattern for the children of `path`, replacing any
    /// earlier one.
    pub fn add_pattern(&mut self, path: &str, desc: &str)
        requires
            old(self).wf(),
        ensures
            final(self).wf(),
            final(self).patterns() == old(self).patterns().insert(path@, desc@),
            final(self).descriptions() == old(self).descriptions(),
    {
        self.patterns.insert(path.to_owned(), desc.to_owned());
    }
}

impl Default for Describer {
    /// A describer with no descriptions and no patterns.
    fn default() -> (r: Describer)
        ensures
            r.wf(),
            r.descriptions() == Map::<Seq<char>, Seq<char>>::empty(),
            r.patterns() == Map::<Seq<char>, Seq<char>>::empty(),
    {
        Describer::new()
    }
}

/// An exact description is returned as it is, whatever pattern the parent
/// directory has.
pub proof fn lemma_exact_description_wins(d: &Describer, path: Seq<char>)
    requires
        d.descriptions().contains_key(path),
    ensures
        d.description_of(path) == Some(d.descriptions()[path]),
{
}

/// A child `name` of a directory `dir` that has a pattern, and no exact
/// description of its own, is described by the pattern with every placeholder
/// replaced by `name`.
pub proof fn lemma_pattern_describes_child(d: &Describer, dir: Seq<char>, name: Seq<char>)
    requires
        d.patterns().contains_key(dir),
        !name.contains(SEPARATOR),
        !d.descriptions().contains_key(dir + seq![SEPARATOR] + name),
    ensures
        d.description_of(dir + seq![SEPARATOR] + name) == Some(substitute(d.patterns()[dir], name)),
{
    let path = dir + seq![SEPARATOR] + name;
    let i = dir.len() as int;
    assert forall|j: int| i < j < path.len() implies path[j] != SEPARATOR by {
        assert(path[j] == name[j - i - 1]);
    }
    lemma_last_index_of_at(path, SEPARATOR, i);
    assert(path.subrange(0, i) =~= dir);
    assert(path.subrange(i + 1, path.len() as int) =~= name);
}

/// A pattern never describes the directory that it is stored under: `path` is
/// described as it would be without its own pattern.
pub proof fn lemma_pattern_not_self_applied(d: &Describer, path: Seq<char>)
    ensures
        d.description_of(path) == described(d.descriptions(), d.patterns().remove(path), path),
{
    lemma_last_index_of(path, SEPARATOR);
    let i = last_index_of(path, SEPARATOR);
    if i >= 0 {
        assert(path.subrange(0, i).len() != path.len());
    }
}

/// A path without a separator and without an exact description is described by
/// nothing.
pub proof fn lemma_no_separator_no_pattern(d: &Describer, path: Seq<char>)
    requires
        !path.contains(SEPARATOR),
        !d.descriptions().contains_key(path),
    ensures
        d.description_of(path) is None,
{
    lemma_last_index_of_at(path, SEPARATOR, -1);
}

/// With no descriptions and no patterns, nothing is described.
pub proof fn lemma_empty_describes_nothing(path: Seq<char>)
    ensures
        described(Map::empty(), Map::empty(), path) is None,
{
}

/// Whatever `to_json` writes for a describer, `new_from_json` reads back as the
/// same descriptions and patterns, so that every path is described as before.
pub proof fn lemma_json_round_trip(d: &Describer, text: Seq<char>)
    requires
        reads_back(text, d.json_tables_of()),
    ensures
        json_document(text) == Some((d.descriptions(), d.patterns())),
        match json_document(text) {
            Some((descriptions, patterns)) => forall|path: Seq<char>|
                described(descriptions, patterns, path) == #[trigger] d.description_of(path),
            None => false,
        },
{
    reveal_strlit("descriptions");
    reveal_strlit("patterns");
    assert(DESCRIPTIONS_FIELD@ != PATTERNS_FIELD@) by {
        assert(DESCRIPTIONS_FIELD@[0] != PATTERNS_FIELD@[0]);
    }
}

} // verus!
