use vstd::pervasive::VecAdditionalExecFns;
use vstd::prelude::*;

verus! {

/// The value a manifest declares for a dependency: the version as a string,
/// or any other TOML shape (a table, a number, ...), which is invalid.
#[derive(Debug, PartialEq, Eq)]
pub enum DependencyValue {
    VersionString(String),
    NotAString,
}

impl View for DependencyValue {
    type V = Option<Seq<char>>;

    open spec fn view(&self) -> Option<Seq<char>> {
        match self {
            DependencyValue::VersionString(s) => Some(s@),
            DependencyValue::NotAString => None,
        }
    }
}

impl Clone for DependencyValue {
    fn clone(&self) -> (r: Self)
        ensures
            r == *self,
    {
        match self {
            DependencyValue::VersionString(s) => DependencyValue::VersionString(s.clone()),
            DependencyValue::NotAString => DependencyValue::NotAString,
        }
    }
}

/// One entry of a manifest's `dependencies` table.
#[derive(Debug, PartialEq, Eq)]
pub struct Dependency {
    pub name: String,
    pub value: DependencyValue,
}

impl View for Dependency {
    type V = (Seq<char>, Option<Seq<char>>);

    open spec fn view(&self) -> (Seq<char>, Option<Seq<char>>) {
        (self.name@, self.value@)
    }
}

impl Clone for Dependency {
    fn clone(&self) -> (r: Self)
        ensures
            r == *self,
    {
        Dependency { name: self.name.clone(), value: self.value.clone() }
    }
}

/// A command declared by a manifest. `package`, when present, is a single
/// string of the shape `<name> <version>`.
#[derive(Debug, PartialEq, Eq)]
pub struct Command {
    pub name: String,
    pub module: String,
    pub package: Option<String>,
    pub main_args: Option<String>,
}

/// What this library reads of a manifest: the optional `dependencies`
/// table, as a list of entries in the order the document gives them.
/// `None` means the document has no `dependencies` key at all, which is
/// distinct from an empty table.
#[derive(Debug, PartialEq, Eq)]
pub struct Manifest {
    pub dependencies: Option<Vec<Dependency>>,
}

/// The mapping a dependency list denotes: later entries win over earlier
/// ones with the same name.
pub open spec fn deps_map_of(entries: Seq<(Seq<char>, Option<Seq<char>>)>) -> Map<
    Seq<char>,
    Option<Seq<char>>,
>
    decreases entries.len(),
{
    if entries.len() == 0 {
        Map::empty()
    } else {
        deps_map_of(entries.drop_last()).insert(entries.last().0, entries.last().1)
    }
}

impl Manifest {
    /// The declared dependency entries as (name, value) pairs.
    pub open spec fn dep_entries(&self) -> Seq<(Seq<char>, Option<Seq<char>>)> {
        match self.dependencies {
            Option::Some(ds) => ds@.map_values(|d: Dependency| d@),
            Option::None => Seq::empty(),
        }
    }

    /// The mapping from dependency name to declared value.
    pub open spec fn dep_map(&self) -> Map<Seq<char>, Option<Seq<char>>> {
        deps_map_of(self.dep_entries())
    }

    /// Dependency names are pairwise distinct, as the keys of a table are.
    pub open spec fn wf(&self) -> bool {
        forall|i: int, j: int|
            0 <= i < j < self.dep_entries().len() ==> self.dep_entries()[i].0
                != self.dep_entries()[j].0
    }

    /// Records `version` as the declared value for `name`, creating the
    /// `dependencies` table when the manifest has none. An existing entry
    /// with the same name is overwritten.
    #[verifier::loop_isolation(false)]
    pub fn add_dependency(&mut self, name: &str, version: &str)
        requires
            old(self).wf(),
        ensures
            final(self).wf(),
            final(self).dependencies is Some,
            final(self).dep_map() == old(self).dep_map().insert(name@, Some(version@)),
    {
        let ghost entries0 = old(self).dep_entries();
        let ds_opt = self.dependencies.take();
        let mut ds: Vec<Dependency> = match ds_opt {
            Some(v) => v,
            None => Vec::new(),
        };
        proof {
            assert(ds@.map_values(|d: Dependency| d@) =~= entries0);
        }
        let n = ds.len();
        let mut i: usize = 0;
        while i < n
            invariant
                i <= n,
                n == ds@.len(),
                ds@.map_values(|d: Dependency| d@) =~= entries0,
                forall|j: int| 0 <= j < i ==> ds@[j].name@ != name@,
            decreases n - i,
        {
            if crate::text::str_eq(ds[i].name.as_str(), name) {
                let e = Dependency {
                    name: name.to_owned(),
                    value: DependencyValue::VersionString(version.to_owned()),
                };
                ds.set(i, e);
                proof {
                    let entries1 = ds@.map_values(|d: Dependency| d@);
                    assert(entries1 =~= entries0.update(i as int, (name@, Some(version@))));
                    assert(entries0[i as int].0 == name@);
                    lemma_deps_map_update(entries0, i as int, (name@, Some(version@)));
                    assert forall|a: int, b: int|
                        0 <= a < b < entries1.len() implies entries1[a].0 != entries1[b].0 by {
                        assert(entries1[a].0 == entries0[a].0);
                        assert(entries1[b].0 == entries0[b].0);
                    }
                }
                self.dependencies = Some(ds);
                return ;
            }
            i = i + 1;
        }
        let e = Dependency {
            name: name.to_owned(),
            value: DependencyValue::VersionString(version.to_owned()),
        };
        ds.push(e);
        proof {
            let entries1 = ds@.map_values(|d: Dependency| d@);
            assert(entries1 =~= entries0.push((name@, Some(version@))));
            assert(entries1.drop_last() =~= entries0);
        }
        self.dependencies = Some(ds);
    }
}

impl Clone for Manifest {
    /// The copy reads as the same manifest: it has a `dependencies` table
    /// exactly when the cloned one does, with the same entries.
    #[verifier::loop_isolation(false)]
    fn clone(&self) -> (r: Self)
        ensures
            r.dependencies is Some <==> self.dependencies is Some,
            r.dep_entries() == self.dep_entries(),
    {
        match &self.dependencies {
            None => Manifest { dependencies: None },
            Some(ds) => {
                let mut copy: Vec<Dependency> = Vec::new();
                let n = ds.len();
                let mut i: usize = 0;
                while i < n
                    invariant
                        i <= n,
                        n == ds@.len(),
                        copy@.len() == i,
                        forall|j: int| 0 <= j < i ==> copy@[j] == ds@[j],
                    decreases n - i,
                {
                    copy.push(ds[i].clone());
                    i = i + 1;
                }
                proof {
                    assert(copy@ =~= ds@);
                    assert(copy@.map_values(|d: Dependency| d@) =~= ds@.map_values(
                        |d: Dependency| d@,
                    ));
                }
                Manifest { dependencies: Some(copy) }
            },
        }
    }
}

/// Replacing the entry that holds a name, in a list of distinct names,
/// changes the denoted mapping exactly at that name.
proof fn lemma_deps_map_update(
    entries: Seq<(Seq<char>, Option<Seq<char>>)>,
    k: int,
    e: (Seq<char>, Option<Seq<char>>),
)
    requires
        0 <= k < entries.len(),
        entries[k].0 == e.0,
        forall|i: int, j: int| 0 <= i < j < entries.len() ==> entries[i].0 != entries[j].0,
    ensures
        deps_map_of(entries.update(k, e)) == deps_map_of(entries).insert(e.0, e.1),
    decreases entries.len(),
{
    let upd = entries.update(k, e);
    if k == entries.len() - 1 {
        assert(upd.drop_last() =~= entries.drop_last());
        assert(upd.last() == e);
        assert(deps_map_of(entries).insert(e.0, e.1) =~= deps_map_of(entries.drop_last()).insert(
            e.0,
            e.1,
        ));
    } else {
        assert(upd.drop_last() =~= entries.drop_last().update(k, e));
        assert(upd.last() == entries.last());
        lemma_deps_map_update(entries.drop_last(), k, e);
        assert(entries[k].0 != entries[entries.len() - 1].0);
        assert(deps_map_of(entries.drop_last()).insert(e.0, e.1).insert(
            entries.last().0,
            entries.last().1,
        ) =~= deps_map_of(entries.drop_last()).insert(entries.last().0, entries.last().1).insert(
            e.0,
            e.1,
        ));
    }
}

/// The conventional file name a manifest is stored under inside a package
/// directory.
pub fn manifest_file_name() -> (r: &'static str)
    ensures
        r@ == "wapm.toml"@,
{
    "wapm.toml"
}

} // verus!
