use wapm_manifest::manifest::{
    manifest_file_name, Command, Dependency, DependencyValue, Manifest,
};
use wapm_manifest::manifest_packages::{
    Error, InstalledManifestPackages, ManifestPackages, ManifestResult, PackageKey,
};

fn dep(name: &str, version: &str) -> Dependency {
    Dependency {
        name: name.to_string(),
        value: DependencyValue::VersionString(version.to_string()),
    }
}

fn key_pairs(packages: &ManifestPackages) -> Vec<(String, String)> {
    let mut pairs: Vec<(String, String)> = packages
        .keys()
        .into_iter()
        .map(|k| (k.name, k.version))
        .collect();
    pairs.sort();
    pairs
}

#[test]
fn error_messages_carry_their_context() {
    assert_eq!(
        Error::ManifestTomlParseError("bad syntax".to_string()).message(),
        "Could not parse manifest because bad syntax."
    );
    assert_eq!(
        Error::IoError("denied".to_string()).message(),
        "Could not parse manifest because denied."
    );
    assert_eq!(
        Error::DependencyVersionMustBeString("foo".to_string()).message(),
        "Dependency version must be a string. Package name: foo."
    );
    assert_eq!(
        Error::SaveError("disk full".to_string()).message(),
        "Could not save manifest file because disk full."
    );
}

#[test]
fn conventional_file_name() {
    assert_eq!(manifest_file_name(), "wapm.toml");
}

#[test]
fn invalid_toml_is_invalid_never_found() {
    let r = ManifestResult::from_source("dependencies = [");
    match r {
        ManifestResult::ManifestError(Error::ManifestTomlParseError(_)) => {}
        other => panic!("expected a parse error, got {:?}", other),
    }
}

#[test]
fn missing_dependencies_key_is_found_without_table() {
    let r = ManifestResult::from_source("title = \"x\"\n");
    match r {
        ManifestResult::Manifest(m) => assert_eq!(m.dependencies, None),
        other => panic!("expected a manifest, got {:?}", other),
    }
}

#[test]
fn empty_dependencies_table_is_found_and_empty() {
    let r = ManifestResult::from_source("[dependencies]\n");
    match r {
        ManifestResult::Manifest(m) => assert_eq!(m.dependencies, Some(vec![])),
        other => panic!("expected a manifest, got {:?}", other),
    }
}

#[test]
fn non_table_dependencies_key_is_invalid() {
    let r = ManifestResult::from_source("dependencies = 5\n");
    match r {
        ManifestResult::ManifestError(Error::ManifestTomlParseError(msg)) => {
            assert_eq!(msg, "the dependencies key must be a table");
        }
        other => panic!("expected a parse error, got {:?}", other),
    }
}

#[test]
fn string_dependencies_are_read_verbatim() {
    let r = ManifestResult::from_source("[dependencies]\n\"left-pad\" = \"1.0.0\"\nfoo = \"2.0\"\n");
    match r {
        ManifestResult::Manifest(m) => {
            let mut ds = m.dependencies.expect("a dependencies table");
            ds.sort_by(|a, b| a.name.cmp(&b.name));
            assert_eq!(ds, vec![dep("foo", "2.0"), dep("left-pad", "1.0.0")]);
        }
        other => panic!("expected a manifest, got {:?}", other),
    }
}

#[test]
fn non_string_dependency_value_is_kept_as_such() {
    let r = ManifestResult::from_source("[dependencies]\nfoo = 1\n");
    match r {
        ManifestResult::Manifest(m) => {
            let ds = m.dependencies.expect("a dependencies table");
            assert_eq!(
                ds,
                vec![Dependency {
                    name: "foo".to_string(),
                    value: DependencyValue::NotAString,
                }]
            );
        }
        other => panic!("expected a manifest, got {:?}", other),
    }
}

#[test]
fn keys_one_identity_per_entry() {
    let m = Manifest {
        dependencies: Some(vec![dep("a", "1.0"), dep("b", "2.0"), dep("a", "1.0")]),
    };
    let p = ManifestPackages::new_from_result(&ManifestResult::Manifest(m)).unwrap();
    assert_eq!(
        key_pairs(&p),
        vec![
            ("a".to_string(), "1.0".to_string()),
            ("b".to_string(), "2.0".to_string()),
        ]
    );
}

#[test]
fn keys_do_not_depend_on_insertion_order() {
    let m1 = Manifest {
        dependencies: Some(vec![dep("a", "1.0"), dep("b", "2.0")]),
    };
    let m2 = Manifest {
        dependencies: Some(vec![dep("b", "2.0"), dep("a", "1.0")]),
    };
    let p1 = ManifestPackages::new_from_result(&ManifestResult::Manifest(m1)).unwrap();
    let p2 = ManifestPackages::new_from_result(&ManifestResult::Manifest(m2)).unwrap();
    assert_eq!(key_pairs(&p1), key_pairs(&p2));
}

#[test]
fn non_string_value_fails_with_no_partial_set() {
    let m = Manifest {
        dependencies: Some(vec![
            dep("good", "1.0"),
            Dependency {
                name: "bad".to_string(),
                value: DependencyValue::NotAString,
            },
            dep("later", "3.0"),
        ]),
    };
    let r = ManifestPackages::new_from_result(&ManifestResult::Manifest(m));
    assert_eq!(
        r.unwrap_err(),
        Error::DependencyVersionMustBeString("bad".to_string())
    );
}

#[test]
fn absent_manifest_yields_no_set() {
    let p = ManifestPackages::new_from_result(&ManifestResult::NoManifest).unwrap();
    assert!(p.package_keys.is_none());
    assert_eq!(p.keys(), vec![]);
}

#[test]
fn invalid_manifest_propagates_its_error() {
    let e = Error::IoError("cannot read".to_string());
    let r = ManifestPackages::new_from_result(&ManifestResult::ManifestError(e));
    assert_eq!(r.unwrap_err(), Error::IoError("cannot read".to_string()));
}

#[test]
fn add_is_idempotent() {
    let mut p = ManifestPackages { package_keys: None };
    p.add_additional_packages(vec![
        ("pkg".to_string(), "1.0".to_string()),
        ("pkg".to_string(), "1.0".to_string()),
    ]);
    assert_eq!(p.keys().len(), 1);
    p.add_additional_packages(vec![("pkg".to_string(), "1.0".to_string())]);
    assert_eq!(p.keys().len(), 1);
    assert_eq!(
        p.keys(),
        vec![PackageKey {
            name: "pkg".to_string(),
            version: "1.0".to_string(),
        }]
    );
}

#[test]
fn add_initializes_a_missing_set() {
    let mut p = ManifestPackages { package_keys: None };
    p.add_additional_packages(vec![]);
    assert_eq!(p.package_keys, Some(vec![]));
}

#[test]
fn reconcile_is_a_no_op_without_installed_packages() {
    let installed = InstalledManifestPackages { packages: vec![] };
    let found = ManifestResult::Manifest(Manifest {
        dependencies: Some(vec![dep("a", "1.0")]),
    });
    assert_eq!(found.update_manifest(&installed), None);
    assert_eq!(ManifestResult::NoManifest.update_manifest(&installed), None);
    let invalid = ManifestResult::ManifestError(Error::IoError("x".to_string()));
    assert_eq!(invalid.update_manifest(&installed), None);
}

#[test]
fn reconcile_is_a_no_op_on_absent_or_invalid_manifests() {
    let installed = InstalledManifestPackages {
        packages: vec![PackageKey {
            name: "b".to_string(),
            version: "2.0".to_string(),
        }],
    };
    assert_eq!(ManifestResult::NoManifest.update_manifest(&installed), None);
    let invalid = ManifestResult::ManifestError(Error::IoError("x".to_string()));
    assert_eq!(invalid.update_manifest(&installed), None);
}

#[test]
fn reconcile_adds_and_overwrites_dependencies() {
    let found = ManifestResult::Manifest(Manifest {
        dependencies: Some(vec![dep("a", "1.0")]),
    });
    let installed = InstalledManifestPackages {
        packages: vec![
            PackageKey {
                name: "b".to_string(),
                version: "2.0".to_string(),
            },
            PackageKey {
                name: "a".to_string(),
                version: "3.0".to_string(),
            },
        ],
    };
    let updated = found.update_manifest(&installed).expect("a manifest to save");
    let mut ds = updated.dependencies.expect("a dependencies table");
    ds.sort_by(|x, y| x.name.cmp(&y.name));
    assert_eq!(ds, vec![dep("a", "3.0"), dep("b", "2.0")]);
}

#[test]
fn reconcile_creates_the_dependencies_table() {
    let found = ManifestResult::Manifest(Manifest { dependencies: None });
    let installed = InstalledManifestPackages {
        packages: vec![PackageKey {
            name: "b".to_string(),
            version: "2.0".to_string(),
        }],
    };
    let updated = found.update_manifest(&installed).expect("a manifest to save");
    assert_eq!(updated.dependencies, Some(vec![dep("b", "2.0")]));
}
