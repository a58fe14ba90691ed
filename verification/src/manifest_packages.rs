use vstd::prelude::*;

verus! {

use crate::manifest::{Dependency, DependencyValue, Manifest};
use crate::text::str_eq;

/// The failures of loading a manifest and extracting its dependencies.
#[derive(Debug, PartialEq, Eq)]
pub enum Error {
    /// The manifest file does not parse; holds the parser's diagnostic.
    ManifestTomlParseError(String),
    /// The manifest file exists but cannot be read as one.
    IoError(String),
    /// A declared dependency's value is not a version string; holds the
    /// offending dependency's name.
    DependencyVersionMustBeString(String),
    /// Persisting an updated manifest failed; holds the underlying cause.
    SaveError(String),
}

impl Clone for Error {
    fn clone(&self) -> (r: Self)
        ensures
            r == *self,
    {
        match self {
            Error::ManifestTomlParseError(s) => Error::ManifestTomlParseError(s.clone()),
            Error::IoError(s) => Error::IoError(s.clone()),
            Error::DependencyVersionMustBeString(s) => Error::DependencyVersionMustBeString(
                s.clone(),
            ),
            Error::SaveError(s) => Error::SaveError(s.clone()),
        }
    }
}

impl Error {
    /// The description shown to the user; it names what failed and carries
    /// the diagnostic or the offending dependency.
    pub fn message(&self) -> (r: String)
        ensures
            match self {
                Error::ManifestTomlParseError(s) => r@ == "Could not parse manifest because "@
                    + s@ + "."@,
                Error::IoError(s) => r@ == "Could not parse manifest because "@ + s@ + "."@,
                Error::DependencyVersionMustBeString(s) => r@
                    == "Dependency version must be a string. Package name: "@ + s@ + "."@,
                Error::SaveError(s) => r@ == "Could not save manifest file because "@ + s@ + "."@,
            },
    {
        match self {
            Error::ManifestTomlParseError(s) => crate::text::concat3(
                "Could not parse manifest because ",
                s.as_str(),
                ".",
            ),
            Error::IoError(s) => crate::text::concat3(
                "Could not parse manifest because ",
                s.as_str(),
                ".",
            ),
            Error::DependencyVersionMustBeString(s) => crate::text::concat3(
                "Dependency version must be a string. Package name: ",
                s.as_str(),
                ".",
            ),
            Error::SaveError(s) => crate::text::concat3(
                "Could not save manifest file because ",
                s.as_str(),
                ".",
            ),
        }
    }
}

/// A ternary for a manifest: found, absent, or invalid.
#[derive(Debug)]
pub enum ManifestResult {
    Manifest(Manifest),
    NoManifest,
    ManifestError(Error),
}

/// A dependency identity: a package name and an exact version.
#[derive(Debug, PartialEq, Eq)]
pub struct PackageKey {
    pub name: String,
    pub version: String,
}

impl View for PackageKey {
    type V = (Seq<char>, Seq<char>);

    open spec fn view(&self) -> (Seq<char>, Seq<char>) {
        (self.name@, self.version@)
    }
}

impl Clone for PackageKey {
    fn clone(&self) -> (r: Self)
        ensures
            r == *self,
    {
        PackageKey { name: self.name.clone(), version: self.version.clone() }
    }
}

impl PackageKey {
    /// An identity discovered during resolution rather than declared in the
    /// manifest; it is equal to a declared identity with the same name and
    /// version.
    pub fn new_registry_package(name: &str, version: &str) -> (r: Self)
        ensures
            r@ == (name@, version@),
    {
        PackageKey { name: name.to_owned(), version: version.to_owned() }
    }
}

/// The packages the resolver reports as installed.
#[derive(Debug)]
pub struct InstalledManifestPackages {
    pub packages: Vec<PackageKey>,
}

/// The set of identities a list of keys holds.
pub open spec fn keys_view(v: Seq<PackageKey>) -> Set<(Seq<char>, Seq<char>)> {
    Set::new(|p: (Seq<char>, Seq<char>)| exists|i: int| 0 <= i < v.len() && v[i]@ == p)
}

/// The set of identities a list of (name, version) pairs holds.
pub open spec fn pairs_view(v: Seq<(String, String)>) -> Set<(Seq<char>, Seq<char>)> {
    Set::new(
        |p: (Seq<char>, Seq<char>)| exists|i: int| 0 <= i < v.len() && (v[i].0@, v[i].1@) == p,
    )
}

/// The identities a dependency list declares: one per entry whose value is
/// a version string, matched verbatim.
pub open spec fn declared_key_set(ds: Seq<Dependency>) -> Set<(Seq<char>, Seq<char>)> {
    Set::new(
        |p: (Seq<char>, Seq<char>)|
            exists|i: int| 0 <= i < ds.len() && ds[i].name@ == p.0 && ds[i].value@ == Some(p.1),
    )
}

/// Every declared dependency value is a version string.
pub open spec fn all_version_strings(m: Manifest) -> bool {
    match m.dependencies {
        Option::Some(ds) => forall|i: int|
            0 <= i < ds@.len() ==> ds@[i].value is VersionString,
        Option::None => true,
    }
}

/// A successful extraction: the key set holds exactly the declared
/// identities, without duplicates, and is present exactly when the
/// manifest has a `dependencies` table.
pub open spec fn extraction_ok(m: Manifest, p: ManifestPackages) -> bool {
    &&& p.wf()
    &&& match m.dependencies {
        Option::Some(ds) => p.package_keys is Some && p.key_set() == declared_key_set(ds@),
        Option::None => p.package_keys is None,
    }
}

/// A failed extraction: the error names the first declared dependency
/// whose value is not a version string.
pub open spec fn extraction_err(m: Manifest, e: Error) -> bool {
    match m.dependencies {
        Option::Some(ds) => exists|i: int|
            0 <= i < ds@.len() && (#[trigger] ds@[i].value) is NotAString && (forall|j: int|
                0 <= j < i ==> ds@[j].value is VersionString) && (e matches
            Error::DependencyVersionMustBeString(n) && n@ == ds@[i].name@),
        Option::None => false,
    }
}

/// All the dependency identities of a package's manifest, deduplicated.
#[derive(Debug)]
pub struct ManifestPackages {
    pub package_keys: Option<Vec<PackageKey>>,
}

impl ManifestPackages {
    /// The identities held, as a set; empty when no table was present.
    pub open spec fn key_set(&self) -> Set<(Seq<char>, Seq<char>)> {
        match self.package_keys {
            Option::Some(v) => keys_view(v@),
            Option::None => Set::empty(),
        }
    }

    /// No identity occurs twice.
    pub open spec fn wf(&self) -> bool {
        match self.package_keys {
            Option::Some(v) => forall|i: int, j: int| 0 <= i < j < v@.len() ==> v@[i]@ != v@[j]@,
            Option::None => true,
        }
    }

    /// Builds the key set from a manifest lookup: an invalid manifest
    /// propagates its error, an absent one yields no set, and a found one
    /// has its dependencies extracted all-or-nothing.
    pub fn new_from_result(result: &ManifestResult) -> (r: Result<ManifestPackages, Error>)
        ensures
            match *result {
                ManifestResult::Manifest(m) => {
                    &&& (r is Ok <==> all_version_strings(m))
                    &&& (r matches Ok(p) ==> extraction_ok(m, p))
                    &&& (r matches Err(e) ==> extraction_err(m, e))
                },
                ManifestResult::NoManifest => r matches Ok(p) && p.package_keys is None,
                ManifestResult::ManifestError(e) => r matches Err(e2) && e2 == e,
            },
    {
        match result {
            ManifestResult::Manifest(manifest) => Self::new_from_manifest(manifest),
            ManifestResult::NoManifest => Ok(ManifestPackages { package_keys: None }),
            ManifestResult::ManifestError(e) => Err(e.clone()),
        }
    }

    /// Walks the declared dependencies; fails on the first value that is
    /// not a version string, returning no partial set.
    #[verifier::loop_isolation(false)]
    fn new_from_manifest(manifest: &Manifest) -> (r: Result<ManifestPackages, Error>)
        ensures
            r is Ok <==> all_version_strings(*manifest),
            r matches Ok(p) ==> extraction_ok(*manifest, p),
            r matches Err(e) ==> extraction_err(*manifest, e),
    {
        match &manifest.dependencies {
            None => Ok(ManifestPackages { package_keys: None }),
            Some(ds) => {
                let mut keys: Vec<PackageKey> = Vec::new();
                let n = ds.len();
                let mut i: usize = 0;
                proof {
                    assert(keys_view(keys@) =~= declared_key_set(ds@.take(0)));
                }
                while i < n
                    invariant
                        i <= n,
                        forall|a: int, b: int| 0 <= a < b < keys@.len() ==> keys@[a]@ != keys@[b]@,
                        keys_view(keys@) == declared_key_set(ds@.take(i as int)),
                        forall|j: int| 0 <= j < i ==> ds@[j].value is VersionString,
                    decreases n - i,
                {
                    match &ds[i].value {
                        DependencyValue::NotAString => {
                            return Err(
                                Error::DependencyVersionMustBeString(ds[i].name.clone()),
                            );
                        },
                        DependencyValue::VersionString(version) => {
                            let ghost keys0 = keys@;
                            if !contains_pair(&keys, ds[i].name.as_str(), version.as_str()) {
                                let key = PackageKey {
                                    name: ds[i].name.clone(),
                                    version: version.clone(),
                                };
                                keys.push(key);
                                proof {
                                    lemma_keys_view_push(keys0, keys@.last());
                                }
                            }
                            proof {
                                lemma_declared_take_step(ds@, i as int);
                                assert(keys_view(keys@) =~= declared_key_set(
                                    ds@.take(i as int + 1),
                                ));
                            }
                        },
                    }
                    i = i + 1;
                }
                proof {
                    assert(ds@.take(n as int) =~= ds@);
                }
                Ok(ManifestPackages { package_keys: Some(keys) })
            },
        }
    }

    /// Inserts each pair as a resolved identity; duplicates collapse, and
    /// a missing underlying set is created first.
    #[verifier::loop_isolation(false)]
    pub fn add_additional_packages(&mut self, added_packages: Vec<(String, String)>)
        requires
            old(self).wf(),
        ensures
            final(self).wf(),
            final(self).package_keys is Some,
            final(self).key_set() == old(self).key_set().union(pairs_view(added_packages@)),
    {
        let mut keys: Vec<PackageKey> = match self.package_keys.take() {
            Some(v) => v,
            None => Vec::new(),
        };
        proof {
            assert(keys_view(keys@) =~= old(self).key_set());
            assert(keys_view(keys@) =~= old(self).key_set().union(
                pairs_view(added_packages@.take(0)),
            ));
        }
        let n = added_packages.len();
        let mut i: usize = 0;
        while i < n
            invariant
                i <= n,
                forall|a: int, b: int| 0 <= a < b < keys@.len() ==> keys@[a]@ != keys@[b]@,
                keys_view(keys@) == old(self).key_set().union(
                    pairs_view(added_packages@.take(i as int)),
                ),
            decreases n - i,
        {
            let ghost keys0 = keys@;
            if !contains_pair(&keys, added_packages[i].0.as_str(), added_packages[i].1.as_str()) {
                let key = PackageKey::new_registry_package(
                    added_packages[i].0.as_str(),
                    added_packages[i].1.as_str(),
                );
                keys.push(key);
                proof {
                    lemma_keys_view_push(keys0, keys@.last());
                }
            }
            proof {
                lemma_pairs_take_step(added_packages@, i as int);
                assert(keys_view(keys@) =~= old(self).key_set().union(
                    pairs_view(added_packages@.take(i as int + 1)),
                ));
            }
            i = i + 1;
        }
        proof {
            assert(added_packages@.take(n as int) =~= added_packages@);
        }
        self.package_keys = Some(keys);
    }

    /// A snapshot of the identities held; empty when no table was present.
    #[verifier::loop_isolation(false)]
    pub fn keys(&self) -> (r: Vec<PackageKey>)
        ensures
            match self.package_keys {
                Option::Some(v) => r@ == v@,
                Option::None => r@ == Seq::<PackageKey>::empty(),
            },
            keys_view(r@) == self.key_set(),
    {
        match &self.package_keys {
            None => {
                let r: Vec<PackageKey> = Vec::new();
                proof {
                    assert(keys_view(r@) =~= Set::<(Seq<char>, Seq<char>)>::empty());
                }
                r
            },
            Some(v) => {
                let mut copy: Vec<PackageKey> = Vec::new();
                let n = v.len();
                let mut i: usize = 0;
                while i < n
                    invariant
                        i <= n,
                        copy@.len() == i,
                        forall|j: int| 0 <= j < i ==> copy@[j] == v@[j],
                    decreases n - i,
                {
                    copy.push(v[i].clone());
                    i = i + 1;
                }
                proof {
                    assert(copy@ =~= v@);
                }
                copy
            },
        }
    }
}

/// Whether the list already holds the identity (name, version).
fn contains_pair(keys: &Vec<PackageKey>, name: &str, version: &str) -> (r: bool)
    ensures
        r == keys_view(keys@).contains((name@, version@)),
{
    let n = keys.len();
    let mut i: usize = 0;
    while i < n
        invariant
            i <= n,
            n == keys@.len(),
            forall|j: int| 0 <= j < i ==> keys@[j]@ != (name@, version@),
        decreases n - i,
    {
        if str_eq(keys[i].name.as_str(), name) && str_eq(keys[i].version.as_str(), version) {
            proof {
                assert(keys@[i as int]@ == (name@, version@));
            }
            return true;
        }
        i = i + 1;
    }
    proof {
        assert forall|l: int| !(0 <= l < keys@.len() && keys@[l]@ == (name@, version@)) by {
            if 0 <= l < keys@.len() {
                assert(keys@[l]@ != (name@, version@));
            }
        }
    }
    false
}

/// Appending one key to a list adds exactly its identity to the set.
proof fn lemma_keys_view_push(v: Seq<PackageKey>, k: PackageKey)
    ensures
        keys_view(v.push(k)) == keys_view(v).insert(k@),
{
    assert forall|q: (Seq<char>, Seq<char>)|
        keys_view(v.push(k)).contains(q) implies keys_view(v).insert(k@).contains(q) by {
        let l = choose|l: int| 0 <= l < v.push(k).len() && v.push(k)[l]@ == q;
        if l < v.len() {
            assert(v[l]@ == q);
        } else {
            assert(q == k@);
        }
    }
    assert forall|q: (Seq<char>, Seq<char>)|
        keys_view(v).insert(k@).contains(q) implies keys_view(v.push(k)).contains(q) by {
        if q == k@ {
            assert(v.push(k)[v.len() as int]@ == q);
        } else {
            let l = choose|l: int| 0 <= l < v.len() && v[l]@ == q;
            assert(v.push(k)[l]@ == q);
        }
    }
    assert(keys_view(v.push(k)) =~= keys_view(v).insert(k@));
}

/// One more prefix entry declares exactly one more identity when its value
/// is a version string.
proof fn lemma_declared_take_step(ds: Seq<Dependency>, i: int)
    requires
        0 <= i < ds.len(),
        ds[i].value is VersionString,
    ensures
        declared_key_set(ds.take(i + 1)) == declared_key_set(ds.take(i)).insert(
            (ds[i].name@, ds[i].value@->0),
        ),
{
    let p_new = (ds[i].name@, ds[i].value@->0);
    let t1 = ds.take(i + 1);
    let t0 = ds.take(i);
    assert forall|q: (Seq<char>, Seq<char>)|
        declared_key_set(t1).contains(q) implies declared_key_set(t0).insert(p_new).contains(
        q,
    ) by {
        let l = choose|l: int| 0 <= l < t1.len() && t1[l].name@ == q.0 && t1[l].value@ == Some(q.1);
        if l < i {
            assert(t0[l].name@ == q.0 && t0[l].value@ == Some(q.1));
        } else {
            assert(q == p_new);
        }
    }
    assert forall|q: (Seq<char>, Seq<char>)|
        declared_key_set(t0).insert(p_new).contains(q) implies declared_key_set(t1).contains(
        q,
    ) by {
        if q == p_new {
            assert(t1[i].name@ == q.0 && t1[i].value@ == Some(q.1));
        } else {
            let l = choose|l: int|
                0 <= l < t0.len() && t0[l].name@ == q.0 && t0[l].value@ == Some(q.1);
            assert(t1[l].name@ == q.0 && t1[l].value@ == Some(q.1));
        }
    }
    assert(declared_key_set(t1) =~= declared_key_set(t0).insert(p_new));
}

/// One more prefix pair adds exactly its identity.
proof fn lemma_pairs_take_step(v: Seq<(String, String)>, i: int)
    requires
        0 <= i < v.len(),
    ensures
        pairs_view(v.take(i + 1)) == pairs_view(v.take(i)).insert((v[i].0@, v[i].1@)),
{
    let p_new = (v[i].0@, v[i].1@);
    let t1 = v.take(i + 1);
    let t0 = v.take(i);
    assert forall|q: (Seq<char>, Seq<char>)|
        pairs_view(t1).contains(q) implies pairs_view(t0).insert(p_new).contains(q) by {
        let l = choose|l: int| 0 <= l < t1.len() && (t1[l].0@, t1[l].1@) == q;
        if l < i {
            assert((t0[l].0@, t0[l].1@) == q);
        } else {
            assert(q == p_new);
        }
    }
    assert forall|q: (Seq<char>, Seq<char>)|
        pairs_view(t0).insert(p_new).contains(q) implies pairs_view(t1).contains(q) by {
        if q == p_new {
            assert((t1[i].0@, t1[i].1@) == q);
        } else {
            let l = choose|l: int| 0 <= l < t0.len() && (t0[l].0@, t0[l].1@) == q;
            assert((t1[l].0@, t1[l].1@) == q);
        }
    }
    assert(pairs_view(t1) =~= pairs_view(t0).insert(p_new));
}

/// The declared identities read as a set: two dependency lists holding the
/// same entries declare the same key set, whatever their insertion order
/// and however often an entry repeats.
pub proof fn lemma_declared_key_set_order_independent(ds1: Seq<Dependency>, ds2: Seq<Dependency>)
    requires
        forall|d: Dependency| ds1.contains(d) <==> ds2.contains(d),
    ensures
        declared_key_set(ds1) == declared_key_set(ds2),
{
    assert forall|q: (Seq<char>, Seq<char>)|
        declared_key_set(ds1).contains(q) implies declared_key_set(ds2).contains(q) by {
        let i = choose|i: int| 0 <= i < ds1.len() && ds1[i].name@ == q.0 && ds1[i].value@ == Some(
            q.1,
        );
        assert(ds1.contains(ds1[i]));
        let j = choose|j: int| 0 <= j < ds2.len() && ds2[j] == ds1[i];
        assert(ds2[j].name@ == q.0 && ds2[j].value@ == Some(q.1));
    }
    assert forall|q: (Seq<char>, Seq<char>)|
        declared_key_set(ds2).contains(q) implies declared_key_set(ds1).contains(q) by {
        let i = choose|i: int| 0 <= i < ds2.len() && ds2[i].name@ == q.0 && ds2[i].value@ == Some(
            q.1,
        );
        assert(ds2.contains(ds2[i]));
        let j = choose|j: int| 0 <= j < ds1.len() && ds1[j] == ds2[i];
        assert(ds1[j].name@ == q.0 && ds1[j].value@ == Some(q.1));
    }
    assert(declared_key_set(ds1) =~= declared_key_set(ds2));
}

/// Adding the same identities twice leaves the key set as adding them
/// once: insertion is idempotent under set semantics.
pub proof fn lemma_add_idempotent(
    base: Set<(Seq<char>, Seq<char>)>,
    added: Seq<(String, String)>,
)
    ensures
        base.union(pairs_view(added)).union(pairs_view(added)) == base.union(pairs_view(added)),
{
    assert(base.union(pairs_view(added)).union(pairs_view(added)) =~= base.union(
        pairs_view(added),
    ));
}

/// The dependency mapping after recording each installed package in turn:
/// every installed (name, version) is declared, the last write winning.
pub open spec fn reconciled_map(
    deps: Map<Seq<char>, Option<Seq<char>>>,
    installed: Seq<PackageKey>,
) -> Map<Seq<char>, Option<Seq<char>>>
    decreases installed.len(),
{
    if installed.len() == 0 {
        deps
    } else {
        reconciled_map(deps, installed.drop_last()).insert(
            installed.last().name@,
            Some(installed.last().version@),
        )
    }
}

/// Reconciliation only adds or overwrites: a name no installed package
/// carries keeps its declared value, and no name is removed.
pub proof fn lemma_reconciled_preserves(
    deps: Map<Seq<char>, Option<Seq<char>>>,
    installed: Seq<PackageKey>,
    name: Seq<char>,
)
    requires
        forall|i: int| 0 <= i < installed.len() ==> (#[trigger] installed[i]).name@ != name,
    ensures
        reconciled_map(deps, installed).contains_key(name) <==> deps.contains_key(name),
        deps.contains_key(name) ==> reconciled_map(deps, installed)[name] == deps[name],
    decreases installed.len(),
{
    if installed.len() > 0 {
        lemma_reconciled_preserves(deps, installed.drop_last(), name);
    }
}

/// Every installed package is declared after reconciliation.
pub proof fn lemma_reconciled_installs(
    deps: Map<Seq<char>, Option<Seq<char>>>,
    installed: Seq<PackageKey>,
    i: int,
)
    requires
        0 <= i < installed.len(),
    ensures
        reconciled_map(deps, installed).contains_key(installed[i].name@),
    decreases installed.len(),
{
    if i < installed.len() - 1 {
        lemma_reconciled_installs(deps, installed.drop_last(), i);
    }
}

impl ManifestResult {
    /// A found manifest has pairwise distinct dependency names.
    pub open spec fn found_wf(&self) -> bool {
        match *self {
            ManifestResult::Manifest(m) => m.wf(),
            _ => true,
        }
    }

    /// The manifest to persist after resolution: the found manifest with
    /// every installed package recorded as a dependency. Nothing is to be
    /// persisted — and no write may occur — when the manifest was absent
    /// or invalid, or when nothing was installed.
    #[verifier::loop_isolation(false)]
    pub fn update_manifest(&self, installed_packages: &InstalledManifestPackages) -> (r: Option<
        Manifest,
    >)
        requires
            self.found_wf(),
        ensures
            r is Some <==> (self is Manifest && installed_packages.packages@.len() > 0),
            match (r, *self) {
                (Some(updated), ManifestResult::Manifest(m)) => {
                    &&& updated.wf()
                    &&& updated.dependencies is Some
                    &&& updated.dep_map() == reconciled_map(
                        m.dep_map(),
                        installed_packages.packages@,
                    )
                },
                _ => true,
            },
    {
        match self {
            ManifestResult::Manifest(m) => {
                if installed_packages.packages.len() > 0 {
                    let mut updated = m.clone();
                    let n = installed_packages.packages.len();
                    let mut i: usize = 0;
                    while i < n
                        invariant
                            i <= n,
                            updated.wf(),
                            i > 0 ==> updated.dependencies is Some,
                            updated.dep_map() == reconciled_map(
                                m.dep_map(),
                                installed_packages.packages@.take(i as int),
                            ),
                        decreases n - i,
                    {
                        let p = &installed_packages.packages[i];
                        updated.add_dependency(p.name.as_str(), p.version.as_str());
                        proof {
                            assert(installed_packages.packages@.take(i as int + 1).drop_last()
                                =~= installed_packages.packages@.take(i as int));
                        }
                        i = i + 1;
                    }
                    proof {
                        assert(installed_packages.packages@.take(n as int)
                            =~= installed_packages.packages@);
                    }
                    Some(updated)
                } else {
                    None
                }
            },
            _ => None,
        }
    }
}

} // verus!
