use vstd::prelude::*;

verus! {

use crate::manifest::{Dependency, DependencyValue, Manifest};
use crate::manifest_packages::{Error, ManifestResult};
use toml::de::Error as TomlDeError;

#[verifier::external_type_specification]
#[verifier::external_body]
#[verifier::reject_recursive_types(K)]
#[verifier::reject_recursive_types(V)]
pub struct ExTomlMap<K, V>(toml::map::Map<K, V>);

#[verifier::external_type_specification]
#[verifier::external_body]
pub struct ExTomlValue(toml::Value);

#[verifier::external_type_specification]
#[verifier::external_body]
pub struct ExTomlDeError(TomlDeError);

/// Whether the toml crate parses `s` as a TOML document.
pub uninterp spec fn parsed_table_ok(s: Seq<char>) -> bool;

/// The table the toml crate parses `s` into, when it parses: the parse is
/// a function of the text alone.
pub uninterp spec fn parsed_table_of(s: Seq<char>) -> toml::Table;

/// Whether a parsed table holds an entry under `key`.
pub uninterp spec fn table_has_key(t: toml::Table, key: Seq<char>) -> bool;

/// The value a parsed table holds under `key`, when it holds one.
pub uninterp spec fn table_value_of(t: toml::Table, key: Seq<char>) -> toml::Value;

/// Whether a TOML value is itself a table.
pub uninterp spec fn value_is_table(v: toml::Value) -> bool;

/// The table a TOML value is, when it is one.
pub uninterp spec fn value_table_of(v: toml::Value) -> toml::Table;

/// The string a TOML value holds, when it is a string.
pub uninterp spec fn value_str(v: toml::Value) -> Option<Seq<char>>;

/// A table's entries, in the table's own deterministic order: each key,
/// with the string its value holds when that value is a string.
pub uninterp spec fn table_model(t: toml::Table) -> Seq<(Seq<char>, Option<Seq<char>>)>;

/// Relies on toml::from_str::<toml::Table>: parses TOML document text.
#[verifier::external_body]
fn parse_toml_table(source: &str) -> (r: Result<toml::Table, TomlDeError>)
    ensures
        r is Ok <==> parsed_table_ok(source@),
        r matches Ok(t) ==> t == parsed_table_of(source@),
{
    toml::from_str::<toml::Table>(source)
}

/// Relies on the Display impl of toml::de::Error: the parser's diagnostic
/// for the failed document.
#[verifier::external_body]
fn parse_error_message(e: &TomlDeError) -> String {
    e.to_string()
}

/// Relies on toml::map::Map::get: looks `key` up in a parsed table.
#[verifier::external_body]
fn table_get<'a>(table: &'a toml::Table, key: &str) -> (r: Option<&'a toml::Value>)
    ensures
        r is Some <==> table_has_key(*table, key@),
        r matches Some(v) ==> *v == table_value_of(*table, key@),
{
    table.get(key)
}

/// Relies on toml::Value::as_table: the value's own table, when the value
/// is one.
#[verifier::external_body]
fn value_as_table<'a>(value: &'a toml::Value) -> (r: Option<&'a toml::Table>)
    ensures
        r is Some <==> value_is_table(*value),
        r matches Some(t) ==> *t == value_table_of(*value),
{
    value.as_table()
}

/// Relies on toml::map::Map::iter: hands a table's entries out in the
/// table's order; the keys of a table are pairwise distinct.
#[verifier::external_body]
fn table_entries(table: &toml::Table) -> (r: Vec<(String, toml::Value)>)
    ensures
        r@.len() == table_model(*table).len(),
        forall|i: int|
            0 <= i < r@.len() ==> (#[trigger] r@[i]).0@ == table_model(*table)[i].0 && value_str(
                r@[i].1,
            ) == table_model(*table)[i].1,
        forall|i: int, j: int|
            0 <= i < j < r@.len() ==> (#[trigger] r@[i]).0@ != (#[trigger] r@[j]).0@,
{
    table.iter().map(|(k, v)| (k.clone(), v.clone())).collect()
}

/// Relies on toml::Value::as_str: a declared dependency value as this
/// library models it — the version string, or not a string at all.
#[verifier::external_body]
fn dependency_value_of(value: &toml::Value) -> (r: DependencyValue)
    ensures
        r@ == value_str(*value),
{
    match value.as_str() {
        Some(s) => DependencyValue::VersionString(s.to_owned()),
        None => DependencyValue::NotAString,
    }
}

/// Whether the document `s` parses into holds a `dependencies` key.
pub open spec fn has_dependencies_key(s: Seq<char>) -> bool {
    table_has_key(parsed_table_of(s), "dependencies"@)
}

/// The value the document `s` parses into holds under `dependencies`.
pub open spec fn dependencies_value_of(s: Seq<char>) -> toml::Value {
    table_value_of(parsed_table_of(s), "dependencies"@)
}

/// The raw shape of a parsed document's `dependencies` key.
pub enum RawDependencies {
    /// The document has no `dependencies` key.
    Missing,
    /// The key is present but its value is not a table.
    NotATable,
    /// The key holds a table with these entries.
    Entries(Vec<Dependency>),
}

impl ManifestResult {
    /// The outcome a raw `dependencies` shape denotes: a manifest without
    /// a table, a schema error, or a manifest holding exactly the entries
    /// that were read.
    pub fn from_raw_dependencies(raw: RawDependencies) -> (r: ManifestResult)
        ensures
            match raw {
                RawDependencies::Missing => r == ManifestResult::Manifest(
                    (Manifest { dependencies: None }),
                ),
                RawDependencies::NotATable => (r matches ManifestResult::ManifestError(e)
                    && e matches Error::ManifestTomlParseError(msg) && msg@
                    == "the dependencies key must be a table"@),
                RawDependencies::Entries(ds) => r == ManifestResult::Manifest(
                    (Manifest { dependencies: Some(ds) }),
                ),
            },
    {
        match raw {
            RawDependencies::Missing => ManifestResult::Manifest(Manifest { dependencies: None }),
            RawDependencies::NotATable => ManifestResult::ManifestError(
                Error::ManifestTomlParseError("the dependencies key must be a table".to_owned()),
            ),
            RawDependencies::Entries(ds) => ManifestResult::Manifest(
                Manifest { dependencies: Some(ds) },
            ),
        }
    }

    /// Parses manifest text. Text the toml crate rejects is an invalid
    /// manifest — never an absent one — and so is a `dependencies` key
    /// that is not a table. A document that parses is found: without the
    /// key, as a manifest with no table; with the key a table, as a
    /// manifest holding exactly its entries, in order, names unique as
    /// the keys of a table are.
    #[verifier::loop_isolation(false)]
    pub fn from_source(source: &str) -> (r: ManifestResult)
        ensures
            !(r is NoManifest),
            !parsed_table_ok(source@) ==> (r matches ManifestResult::ManifestError(e)
                && e is ManifestTomlParseError),
            r is Manifest ==> parsed_table_ok(source@),
            r matches ManifestResult::Manifest(m) ==> m.wf(),
            parsed_table_ok(source@) && !has_dependencies_key(source@) ==> r
                == ManifestResult::Manifest((Manifest { dependencies: None })),
            parsed_table_ok(source@) && has_dependencies_key(source@) && !value_is_table(
                dependencies_value_of(source@),
            ) ==> (r matches ManifestResult::ManifestError(e) && e matches
            Error::ManifestTomlParseError(msg) && msg@ == "the dependencies key must be a table"@),
            parsed_table_ok(source@) && has_dependencies_key(source@) && value_is_table(
                dependencies_value_of(source@),
            ) ==> (r matches ManifestResult::Manifest(m) && m.dependencies matches Some(ds)
                && ds@.map_values(|d: Dependency| d@) == table_model(
                value_table_of(dependencies_value_of(source@)),
            )),
    {
        match parse_toml_table(source) {
            Err(e) => ManifestResult::ManifestError(
                Error::ManifestTomlParseError(parse_error_message(&e)),
            ),
            Ok(table) => {
                match table_get(&table, "dependencies") {
                    None => Self::from_raw_dependencies(RawDependencies::Missing),
                    Some(value) => {
                        match value_as_table(value) {
                            None => Self::from_raw_dependencies(RawDependencies::NotATable),
                            Some(deps_table) => {
                                let entries = table_entries(deps_table);
                                let mut ds: Vec<Dependency> = Vec::new();
                                let n = entries.len();
                                let mut i: usize = 0;
                                while i < n
                                    invariant
                                        i <= n,
                                        ds@.len() == i,
                                        forall|k: int|
                                            0 <= k < i ==> (#[trigger] ds@[k]).name@ == table_model(
                                                *deps_table,
                                            )[k].0 && ds@[k].value@ == table_model(
                                                *deps_table,
                                            )[k].1,
                                    decreases n - i,
                                {
                                    let value = dependency_value_of(&entries[i].1);
                                    let name = entries[i].0.clone();
                                    ds.push(Dependency { name, value });
                                    i = i + 1;
                                }
                                proof {
                                    let entries_v = ds@.map_values(|d: Dependency| d@);
                                    assert forall|a: int, b: int|
                                        0 <= a < b < entries_v.len() implies entries_v[a].0
                                        != entries_v[b].0 by {
                                        assert(entries@[a].0@ != entries@[b].0@);
                                        assert(entries@[a].0@ == table_model(*deps_table)[a].0);
                                        assert(entries@[b].0@ == table_model(*deps_table)[b].0);
                                    }
                                    assert forall|k: int|
                                        0 <= k < entries_v.len() implies entries_v[k]
                                        == table_model(*deps_table)[k] by {
                                        assert(ds@[k].name@ == table_model(*deps_table)[k].0);
                                        assert(ds@[k].value@ == table_model(*deps_table)[k].1);
                                    }
                                    assert(entries_v =~= table_model(*deps_table));
                                }
                                Self::from_raw_dependencies(RawDependencies::Entries(ds))
                            },
                        }
                    },
                }
            },
        }
    }
}

} // verus!
