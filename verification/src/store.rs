//! Translation tables of all locales, and lookup with a fallback locale.

use vstd::prelude::*;
use ahash::{AHashMap, RandomState};
use crate::arg::Arg;
use crate::error::{Error, ErrorModel};
use crate::template::{
    render_parts, spec_template, PartModel, Template, TemplateModel,
};
use crate::text::{chars_of, push_char, str_eq, string_of};
use crate::yaml::{parse_yaml, yaml_document, YamlValue};

verus! {

broadcast use vstd::string::group_string_axioms;

#[verifier::external_type_specification]
#[verifier::external_body]
#[verifier::reject_recursive_types(K)]
#[verifier::reject_recursive_types(V)]
#[verifier::reject_recursive_types(S)]
pub struct ExAHashMap<K, V, S>(AHashMap<K, V, S>);

#[verifier::external_type_specification]
#[verifier::external_body]
pub struct ExRandomState(RandomState);

/// A table from names to positions.
pub type NameTable = AHashMap<String, usize>;

/// The entries of a table from names to positions.
pub uninterp spec fn table_entries(m: NameTable) -> Map<Seq<char>, usize>;

/// An empty table.
///
/// Calls `AHashMap::new`; the contract claims that the new map holds no entry.
#[verifier::external_body]
fn table_new() -> (table: NameTable)
    ensures
        table_entries(table).dom() == Set::<Seq<char>>::empty(),
{
    AHashMap::new()
}

/// Inserts or replaces an entry.
///
/// Calls `AHashMap::insert`, which forwards to `HashMap::insert`: afterwards the
/// key maps to the value and every other entry is unchanged (string keys
/// compare and hash by their characters).
#[verifier::external_body]
fn table_insert(table: &mut NameTable, key: String, value: usize)
    ensures
        table_entries(*final(table)) == table_entries(*old(table)).insert(key@, value),
{
    table.insert(key, value);
}

/// Looks an entry up.
///
/// Calls `AHashMap::get`, which forwards to `HashMap::get`: the value of the
/// key, or `None` when the map has no entry for it.
#[verifier::external_body]
fn table_get(table: &NameTable, key: &str) -> (r: Option<usize>)
    ensures
        r == (if table_entries(*table).contains_key(key@) {
            Some(table_entries(*table)[key@])
        } else {
            None::<usize>
        }),
{
    table.get(key).copied()
}


/// The dotted key of a mapping entry: `key` at the top level, else `prefix.key`.
pub open spec fn full_key(prefix: Seq<char>, key: Seq<char>) -> Seq<char> {
    if prefix.len() == 0 {
        key
    } else {
        prefix + seq!['.'] + key
    }
}

/// The message for a mapping key that is not a string.
pub open spec fn key_message() -> Seq<char> {
    "template keys must be strings"@
}

/// The message for a value that is neither a mapping nor a string.
pub open spec fn value_message(debug: Seq<char>) -> Seq<char> {
    "template value must be a string, got "@ + debug
}

/// What flattening a YAML tree gives.
pub enum FlatModel {
    /// The dotted keys and compiled templates, in document order.
    Done(Seq<(Seq<char>, Seq<PartModel>)>),
    /// The first error met.
    Failed(ErrorModel),
}

/// `done` followed by what the rest of the tree flattens to.
pub open spec fn after_pairs(done: Seq<(Seq<char>, Seq<PartModel>)>, rest: FlatModel) -> FlatModel {
    match rest {
        FlatModel::Done(ps) => FlatModel::Done(done + ps),
        other => other,
    }
}

/// Flattens a YAML value into dotted keys with compiled templates.
///
/// A mapping flattens its entries in order under `prefix.key`; a string is
/// compiled into the template of `prefix`; anything else is an error.
pub open spec fn spec_flatten(path: Seq<char>, v: YamlValue, prefix: Seq<char>) -> FlatModel
    decreases v, 0int,
{
    match v {
        YamlValue::Mapping(entries) => {
            proof {
                assert(decreases_to!(v => entries));
                assert(decreases_to!(entries => entries@));
            }
            flatten_entries(path, entries@, 0, prefix)
        },
        YamlValue::String(s) => match spec_template(s@) {
            TemplateModel::Done(ps) => FlatModel::Done(seq![(prefix, ps)]),
            TemplateModel::Fail(m) => FlatModel::Failed(
                ErrorModel::InvalidTemplate { path, key: prefix, message: m },
            ),
        },
        YamlValue::Other(d) => FlatModel::Failed(
            ErrorModel::InvalidYaml { path, message: value_message(d@) },
        ),
    }
}

/// Flattens mapping entries `entries[i..]`, in order.
pub open spec fn flatten_entries(
    path: Seq<char>,
    entries: Seq<(Option<String>, YamlValue)>,
    i: int,
    prefix: Seq<char>,
) -> FlatModel
    decreases entries, entries.len() - i,
{
    if i < 0 || i >= entries.len() {
        FlatModel::Done(seq![])
    } else {
        match entries[i].0 {
            None => FlatModel::Failed(ErrorModel::InvalidYaml { path, message: key_message() }),
            Some(k) => {
                proof {
                    assert(decreases_to!(entries => entries[i]));
                }
                match spec_flatten(path, entries[i].1, full_key(prefix, k@)) {
                    FlatModel::Done(a) => after_pairs(
                        a,
                        flatten_entries(path, entries, i + 1, prefix),
                    ),
                    other => other,
                }
            },
        }
    }
}

/// A map with `pairs` inserted one after the other.
pub open spec fn insert_pairs(
    m: Map<Seq<char>, Seq<PartModel>>,
    pairs: Seq<(Seq<char>, Seq<PartModel>)>,
) -> Map<Seq<char>, Seq<PartModel>>
    decreases pairs.len(),
{
    if pairs.len() == 0 {
        m
    } else {
        insert_pairs(m, pairs.drop_last()).insert(pairs.last().0, pairs.last().1)
    }
}

/// Inserting `a + b` is inserting `a`, then `b`.
pub proof fn lemma_insert_pairs_append(
    m: Map<Seq<char>, Seq<PartModel>>,
    a: Seq<(Seq<char>, Seq<PartModel>)>,
    b: Seq<(Seq<char>, Seq<PartModel>)>,
)
    ensures
        insert_pairs(m, a + b) == insert_pairs(insert_pairs(m, a), b),
    decreases b.len(),
{
    if b.len() == 0 {
        assert(a + b =~= a);
    } else {
        lemma_insert_pairs_append(m, a, b.drop_last());
        assert((a + b).drop_last() =~= a + b.drop_last());
        assert((a + b).last() == b.last());
    }
}

/// The position of the last `c` before position `i`, or `-1` when there is none.
pub open spec fn last_index_before(s: Seq<char>, c: char, i: int) -> int
    decreases i,
{
    if i <= 0 {
        -1
    } else if s[i - 1] == c {
        i - 1
    } else {
        last_index_before(s, c, i - 1)
    }
}

/// The locale that a file of this name holds: its stem, where its extension
/// is `yml` or `yaml`.
///
/// The extension is what follows the last `.`; a name without a `.`, or whose
/// only `.` is its first character, has none.
pub open spec fn spec_locale_name(name: Seq<char>) -> Option<Seq<char>> {
    let d = last_index_before(name, '.', name.len() as int);
    if d <= 0 {
        None
    } else {
        let ext = name.subrange(d + 1, name.len() as int);
        if ext == "yml"@ || ext == "yaml"@ {
            Some(name.subrange(0, d))
        } else {
            None
        }
    }
}

/// The locale name of a translation file: the file name without its `yml` or
/// `yaml` extension; `None` for any other file.
pub fn locale_name(file_name: &str) -> (r: Option<String>)
    ensures
        match spec_locale_name(file_name@) {
            Some(l) => r matches Some(s) && s@ == l,
            None => r is None,
        },
{
    let chars = chars_of(file_name);
    let n = chars.len();
    let mut i = n;
    while i > 0 && chars[i - 1] != '.'
        invariant
            i <= n,
            n == chars@.len(),
            last_index_before(chars@, '.', i as int) == last_index_before(chars@, '.', n as int),
        decreases i,
    {
        i = i - 1;
    }
    if i <= 1 {
        return None;
    }
    let d = i - 1;
    let ext = string_of(&chars, d + 1, n);
    if str_eq(ext.as_str(), "yml") || str_eq(ext.as_str(), "yaml") {
        Some(string_of(&chars, 0, d))
    } else {
        None
    }
}

/// The translations of one locale, by dotted key.
pub struct Locale {
    keys: NameTable,
    templates: Vec<Template>,
}

impl Locale {
    /// Every key names a stored template of its own.
    pub closed spec fn wf(&self) -> bool {
        &&& forall|k: Seq<char>| #[trigger]
            table_entries(self.keys).contains_key(k) ==> table_entries(self.keys)[k]
                < self.templates@.len()
        &&& forall|k1: Seq<char>, k2: Seq<char>|
            #![trigger table_entries(self.keys)[k1], table_entries(self.keys)[k2]]
            table_entries(self.keys).contains_key(k1) && table_entries(self.keys).contains_key(k2)
                && table_entries(self.keys)[k1] == table_entries(self.keys)[k2] ==> k1 == k2
    }

    /// The compiled templates by key.
    pub closed spec fn templates(&self) -> Map<Seq<char>, Seq<PartModel>> {
        Map::new(
            |k: Seq<char>| table_entries(self.keys).contains_key(k),
            |k: Seq<char>| self.templates@[table_entries(self.keys)[k] as int]@,
        )
    }

    /// A locale without translations.
    pub fn new() -> (l: Self)
        ensures
            l.wf(),
            l.templates() == Map::<Seq<char>, Seq<PartModel>>::empty(),
    {
        let l = Locale { keys: table_new(), templates: Vec::new() };
        assert(l.templates() =~= Map::<Seq<char>, Seq<PartModel>>::empty());
        l
    }

    /// Stores a template under a key, replacing any earlier one in its place.
    pub fn insert(&mut self, key: String, template: Template)
        requires
            old(self).wf(),
        ensures
            final(self).wf(),
            final(self).templates() == old(self).templates().insert(key@, template@),
    {
        let ghost before = *self;
        let ghost k0 = key@;
        let ghost t0 = template@;
        match table_get(&self.keys, key.as_str()) {
            Some(i) => {
                self.templates.set(i, template);
                assert(self.templates() =~= before.templates().insert(k0, t0)) by {
                    assert forall|k: Seq<char>| #[trigger]
                        self.templates().contains_key(k) implies self.templates()[k]
                        == before.templates().insert(k0, t0)[k] by {
                        if k != k0 {
                            assert(table_entries(self.keys)[k] != table_entries(self.keys)[k0]);
                        }
                    }
                }
            },
            None => {
                let idx = self.templates.len();
                self.templates.push(template);
                table_insert(&mut self.keys, key, idx);
                assert(self.templates() =~= before.templates().insert(k0, t0)) by {
                    assert forall|k: Seq<char>| #[trigger]
                        self.templates().contains_key(k) implies self.templates()[k]
                        == before.templates().insert(k0, t0)[k] by {
                        if k != k0 {
                            assert(table_entries(before.keys).contains_key(k));
                            assert(self.templates@[table_entries(self.keys)[k] as int]
                                == before.templates@[table_entries(before.keys)[k] as int]);
                        }
                    }
                }
                assert forall|k1: Seq<char>, k2: Seq<char>|
                    table_entries(self.keys).contains_key(k1) && table_entries(
                        self.keys,
                    ).contains_key(k2) && #[trigger] table_entries(self.keys)[k1]
                        == #[trigger] table_entries(self.keys)[k2] implies k1 == k2 by {
                    if k1 != k0 && k2 != k0 {
                        assert(table_entries(before.keys)[k1] == table_entries(before.keys)[k2]);
                    } else if k1 != k0 {
                        assert(table_entries(before.keys).contains_key(k1));
                    } else if k2 != k0 {
                        assert(table_entries(before.keys).contains_key(k2));
                    }
                }
            },
        }
    }

    /// The template stored under a key.
    pub fn get(&self, key: &str) -> (r: Option<&Template>)
        requires
            self.wf(),
        ensures
            match r {
                Some(t) => self.templates().contains_key(key@) && t@ == self.templates()[key@],
                None => !self.templates().contains_key(key@),
            },
    {
        match table_get(&self.keys, key) {
            Some(i) => Some(&self.templates[i]),
            None => None,
        }
    }
}


/// Whether a flattening result and the map it filled are what `m` describes.
pub open spec fn flattened_as(
    r: Result<(), Error>,
    m: FlatModel,
    before: Map<Seq<char>, Seq<PartModel>>,
    after: Map<Seq<char>, Seq<PartModel>>,
) -> bool {
    match m {
        FlatModel::Done(pairs) => r is Ok && after == insert_pairs(before, pairs),
        FlatModel::Failed(e) => r matches Err(err) && err@ == e,
    }
}

/// Flatten YAML mappings into dotted translation keys and compile each
/// translation into `output`.
fn flatten_yaml(path: &str, value: &YamlValue, prefix: String, output: &mut Locale) -> (r: Result<
    (),
    Error,
>)
    requires
        old(output).wf(),
    ensures
        final(output).wf(),
        flattened_as(
            r,
            spec_flatten(path@, *value, prefix@),
            old(output).templates(),
            final(output).templates(),
        ),
    decreases value,
{
    match value {
        YamlValue::Mapping(entries) => {
            let n = entries.len();
            let mut i: usize = 0;
            let ghost orig = output.templates();
            let ghost mut done: Seq<(Seq<char>, Seq<PartModel>)> = seq![];
            assert(spec_flatten(path@, *value, prefix@) == after_pairs(
                done,
                flatten_entries(path@, entries@, 0, prefix@),
            )) by {
                match flatten_entries(path@, entries@, 0, prefix@) {
                    FlatModel::Done(ps) => {
                        assert(done + ps =~= ps);
                    },
                    _ => {},
                }
            }
            assert(insert_pairs(orig, done) == orig);
            while i < n
                invariant
                    output.wf(),
                    n == entries@.len(),
                    i <= n,
                    *value == YamlValue::Mapping(*entries),
                    spec_flatten(path@, *value, prefix@) == after_pairs(
                        done,
                        flatten_entries(path@, entries@, i as int, prefix@),
                    ),
                    output.templates() == insert_pairs(orig, done),
                    orig == old(output).templates(),
                decreases n - i,
            {
                let entry = &entries[i];
                match &entry.0 {
                    None => {
                        let err = Error::InvalidYaml {
                            path: path.to_owned(),
                            message: "template keys must be strings".to_owned(),
                        };
                        return Err(err);
                    },
                    Some(key) => {
                        let full = if prefix.as_str().is_empty() {
                            key.clone()
                        } else {
                            let mut f = prefix.clone();
                            push_char(&mut f, '.');
                            f.append(key.as_str());
                            f
                        };
                        assert(full@ == full_key(prefix@, key@));
                        let ghost before = output.templates();
                        assert(decreases_to!(*value => entries@[i as int].1)) by {
                            assert(decreases_to!(*value => *entries));
                            assert(decreases_to!(*entries => entries@));
                            assert(decreases_to!(entries@ => entries@[i as int]));
                        }
                        match flatten_yaml(path, &entry.1, full, output) {
                            Ok(()) => {
                                proof {
                                    let a = match spec_flatten(
                                        path@,
                                        entries@[i as int].1,
                                        full_key(prefix@, key@),
                                    ) {
                                        FlatModel::Done(a) => a,
                                        _ => seq![],
                                    };
                                    lemma_insert_pairs_append(orig, done, a);
                                    match flatten_entries(path@, entries@, i + 1, prefix@) {
                                        FlatModel::Done(ps) => {
                                            assert(done + (a + ps) =~= (done + a) + ps);
                                        },
                                        _ => {},
                                    }
                                    done = done + a;
                                }
                            },
                            Err(e) => {
                                return Err(e);
                            },
                        }
                    },
                }
                i = i + 1;
            }
            proof {
                assert(done + Seq::<(Seq<char>, Seq<PartModel>)>::empty() =~= done);
            }
            Ok(())
        },
        YamlValue::String(text) => {
            match Template::compile(text.as_str()) {
                Ok(t) => {
                    let ghost before = output.templates();
                    let ghost tm = t@;
                    output.insert(prefix, t);
                    proof {
                        let pairs = seq![(prefix@, tm)];
                        assert(pairs.drop_last() =~= Seq::<(Seq<char>, Seq<PartModel>)>::empty());
                        assert(insert_pairs(before, pairs.drop_last()) == before);
                    }
                    Ok(())
                },
                Err(m) => {
                    let err = Error::InvalidTemplate { path: path.to_owned(), key: prefix, message: m };
                    Err(err)
                },
            }
        },
        YamlValue::Other(debug) => {
            let mut m = "template value must be a string, got ".to_owned();
            m.append(debug.as_str());
            let err = Error::InvalidYaml { path: path.to_owned(), message: m };
            Err(err)
        },
    }
}


/// What the translations hold: the fallback locale's name and, for each
/// locale, its compiled templates by key.
pub struct TranslationsModel {
    pub fallback: Seq<char>,
    pub locales: Map<Seq<char>, Map<Seq<char>, Seq<PartModel>>>,
}

/// The template that a lookup finds: the requested locale's, or else the
/// fallback locale's.
pub open spec fn spec_lookup(t: TranslationsModel, locale: Seq<char>, key: Seq<char>) -> Option<
    Seq<PartModel>,
> {
    if t.locales.contains_key(locale) && t.locales[locale].contains_key(key) {
        Some(t.locales[locale][key])
    } else if t.locales.contains_key(t.fallback) && t.locales[t.fallback].contains_key(key) {
        Some(t.locales[t.fallback][key])
    } else {
        None
    }
}

/// The templates of a locale loaded from these flattened pairs.
pub open spec fn locale_of(pairs: Seq<(Seq<char>, Seq<PartModel>)>) -> Map<
    Seq<char>,
    Seq<PartModel>,
> {
    insert_pairs(Map::empty(), pairs)
}

/// Whether loading a locale gave `r` and changed `before` into `after` as the
/// flattening result `m` describes: on success the locale is stored (replacing
/// a locale of the same name), otherwise nothing changes.
pub open spec fn loaded_as(
    r: Result<(), Error>,
    m: FlatModel,
    name: Seq<char>,
    before: TranslationsModel,
    after: TranslationsModel,
) -> bool {
    match m {
        FlatModel::Done(pairs) => r is Ok && after == TranslationsModel {
            fallback: before.fallback,
            locales: before.locales.insert(name, locale_of(pairs)),
        },
        FlatModel::Failed(e) => r matches Err(err) && err@ == e && after
            == before,
    }
}

/// Stores all compiled templates for all locales along with the name of the
/// fallback locale.
pub struct Translations {
    fallback: String,
    names: NameTable,
    locales: Vec<Locale>,
}

impl View for Translations {
    type V = TranslationsModel;

    closed spec fn view(&self) -> TranslationsModel {
        TranslationsModel {
            fallback: self.fallback@,
            locales: Map::new(
                |l: Seq<char>| table_entries(self.names).contains_key(l),
                |l: Seq<char>| self.locales@[table_entries(self.names)[l] as int].templates(),
            ),
        }
    }
}

impl Translations {
    /// Every name designates a stored, well-formed locale of its own.
    pub closed spec fn wf(&self) -> bool {
        &&& forall|l: Seq<char>| #[trigger]
            table_entries(self.names).contains_key(l) ==> table_entries(self.names)[l]
                < self.locales@.len()
        &&& forall|l1: Seq<char>, l2: Seq<char>|
            #![trigger table_entries(self.names)[l1], table_entries(self.names)[l2]]
            table_entries(self.names).contains_key(l1) && table_entries(self.names).contains_key(
                l2,
            ) && table_entries(self.names)[l1] == table_entries(self.names)[l2] ==> l1 == l2
        &&& forall|i: int| 0 <= i < self.locales@.len() ==> #[trigger] self.locales@[i].wf()
    }

    /// No locales yet, with `fallback` as the fallback locale.
    pub fn new(fallback: &str) -> (t: Self)
        ensures
            t.wf(),
            t@.fallback == fallback@,
            t@.locales == Map::<Seq<char>, Map<Seq<char>, Seq<PartModel>>>::empty(),
    {
        let t = Translations { fallback: fallback.to_owned(), names: table_new(), locales: Vec::new() };
        assert(t@.locales =~= Map::<Seq<char>, Map<Seq<char>, Seq<PartModel>>>::empty());
        t
    }

    /// Loads the locale `name` from a parsed YAML tree read from `path`.
    ///
    /// Flattens the tree into dotted keys, compiling each string into a
    /// template; on success the locale replaces any locale of the same name.
    pub fn add_tree(&mut self, name: &str, path: &str, tree: &YamlValue) -> (r: Result<
        (),
        Error,
    >)
        requires
            old(self).wf(),
        ensures
            final(self).wf(),
            loaded_as(r, spec_flatten(path@, *tree, seq![]), name@, old(self)@, final(self)@),
    {
        let mut locale = Locale::new();
        let prefix = String::new();
        let res = flatten_yaml(path, tree, prefix, &mut locale);
        match res {
            Ok(()) => {
                let ghost before = *self;
                let ghost lt = locale.templates();
                let ghost n0 = name@;
                match table_get(&self.names, name) {
                    Some(i) => {
                        self.locales.set(i, locale);
                        assert(self@.locales =~= before@.locales.insert(n0, lt)) by {
                            assert forall|l: Seq<char>| #[trigger]
                                self@.locales.contains_key(l) implies self@.locales[l]
                                == before@.locales.insert(n0, lt)[l] by {
                                if l != n0 {
                                    assert(table_entries(self.names)[l] != table_entries(
                                        self.names,
                                    )[n0]);
                                }
                            }
                        }
                        assert(self.wf()) by {
                            assert forall|j: int| 0 <= j < self.locales@.len() implies #[trigger]
                                self.locales@[j].wf() by {
                                if j != i {
                                    assert(self.locales@[j] == before.locales@[j]);
                                }
                            }
                        }
                    },
                    None => {
                        let idx = self.locales.len();
                        self.locales.push(locale);
                        table_insert(&mut self.names, name.to_owned(), idx);
                        assert(self@.locales =~= before@.locales.insert(n0, lt)) by {
                            assert forall|l: Seq<char>| #[trigger]
                                self@.locales.contains_key(l) implies self@.locales[l]
                                == before@.locales.insert(n0, lt)[l] by {
                                if l != n0 {
                                    assert(table_entries(before.names).contains_key(l));
                                    assert(self.locales@[table_entries(self.names)[l] as int]
                                        == before.locales@[table_entries(before.names)[l] as int]);
                                }
                            }
                        }
                        assert(self.wf()) by {
                            assert forall|j: int| 0 <= j < self.locales@.len() implies #[trigger]
                                self.locales@[j].wf() by {
                                if j < before.locales@.len() {
                                    assert(self.locales@[j] == before.locales@[j]);
                                }
                            }
                            assert forall|l1: Seq<char>, l2: Seq<char>|
                                table_entries(self.names).contains_key(l1) && table_entries(
                                    self.names,
                                ).contains_key(l2) && #[trigger] table_entries(self.names)[l1]
                                    == #[trigger] table_entries(self.names)[l2] implies l1
                                == l2 by {
                                if l1 != n0 && l2 != n0 {
                                    assert(table_entries(before.names)[l1] == table_entries(
                                        before.names,
                                    )[l2]);
                                } else if l1 != n0 {
                                    assert(table_entries(before.names).contains_key(l1));
                                } else if l2 != n0 {
                                    assert(table_entries(before.names).contains_key(l2));
                                }
                            }
                        }
                    },
                }
                Ok(())
            },
            Err(e) => Err(e),
        }
    }

    /// Loads the locale `name` from the YAML document `source` read from `path`.
    ///
    /// A document that is not valid YAML is rejected with
    /// [`Error::ParseYaml`]; otherwise as [`Translations::add_tree`].
    pub fn add_locale(&mut self, name: &str, path: &str, source: &str) -> (r: Result<
        (),
        Error,
    >)
        requires
            old(self).wf(),
        ensures
            final(self).wf(),
            match yaml_document(source@) {
                Ok(tree) => loaded_as(
                    r,
                    spec_flatten(path@, tree, seq![]),
                    name@,
                    old(self)@,
                    final(self)@,
                ),
                Err(m) => final(self)@ == old(self)@ && (r matches Err(
                    Error::ParseYaml { path: p, source: e },
                ) && p@ == path@ && e@ == m),
            },
    {
        match parse_yaml(source) {
            Ok(tree) => self.add_tree(name, path, &tree),
            Err(text) => Err(Error::ParseYaml { path: path.to_owned(), source: text }),
        }
    }

    /// The name of the fallback locale.
    pub fn fallback(&self) -> (f: &str)
        ensures
            f@ == self@.fallback,
    {
        self.fallback.as_str()
    }

    /// Whether the fallback locale was loaded.
    pub fn has_fallback(&self) -> (b: bool)
        requires
            self.wf(),
        ensures
            b == self@.locales.contains_key(self@.fallback),
    {
        table_get(&self.names, self.fallback.as_str()).is_some()
    }

    /// The template of `key` in `locale`, or else in the fallback locale.
    fn find(&self, locale: &str, key: &str) -> (r: Option<&Template>)
        requires
            self.wf(),
        ensures
            match spec_lookup(self@, locale@, key@) {
                Some(ps) => r matches Some(t) && t@ == ps,
                None => r is None,
            },
    {
        if let Some(i) = table_get(&self.names, locale) {
            if let Some(t) = self.locales[i].get(key) {
                return Some(t);
            }
        }
        match table_get(&self.names, self.fallback.as_str()) {
            Some(i) => self.locales[i].get(key),
            None => None,
        }
    }

    /// Renders the translation of `key` for `locale` with `args`.
    ///
    /// Looks the template up in the requested locale, then in the fallback
    /// locale; `None` when neither has it.
    pub fn get(&self, locale: &str, key: &str, args: &[(&str, Arg<'_>)]) -> (r: Option<String>)
        requires
            self.wf(),
        ensures
            match spec_lookup(self@, locale@, key@) {
                Some(ps) => r matches Some(s) && s@ == render_parts(ps, args@),
                None => r is None,
            },
    {
        match self.find(locale, key) {
            Some(t) => Some(t.render(args)),
            None => None,
        }
    }
}

} // verus!
