use wapm_manifest::lockfile_command::{LockfileCommand, LockfileCommandError};
use wapm_manifest::manifest::Command;
use wapm_manifest::manifest_packages::{ManifestPackages, ManifestResult, PackageKey};

fn command(name: &str, module: &str, package: Option<&str>, main_args: Option<&str>) -> Command {
    Command {
        name: name.to_string(),
        module: module.to_string(),
        package: package.map(|p| p.to_string()),
        main_args: main_args.map(|a| a.to_string()),
    }
}

#[test]
fn package_field_splits_into_name_and_version() {
    let c = command("run", "main", Some("foo 1.2.3"), None);
    let r = LockfileCommand::from_command("local", "0.0.1", &c).unwrap();
    assert_eq!(r.package_name, "foo");
    assert_eq!(r.package_version, "1.2.3");
    assert_eq!(r.name, "run");
    assert_eq!(r.module, "main");
    assert!(r.is_top_level_dependency);
    assert_eq!(r.main_args, None);
}

#[test]
fn absent_package_field_means_the_local_package() {
    let c = command("run", "main", None, None);
    let r = LockfileCommand::from_command("bar", "0.1.0", &c).unwrap();
    assert_eq!(r.package_name, "bar");
    assert_eq!(r.package_version, "0.1.0");
}

#[test]
fn main_args_are_copied_verbatim() {
    let c = command("serve", "web", Some("srv 2.0.0"), Some("--port 80"));
    let r = LockfileCommand::from_command("local", "0.0.1", &c).unwrap();
    assert_eq!(r.main_args, Some("--port 80".to_string()));
}

#[test]
fn package_field_without_a_space_is_a_fatal_format_error() {
    let c = command("run", "main", Some("badformat"), None);
    let r = LockfileCommand::from_command("local", "0.0.1", &c);
    assert_eq!(
        r.unwrap_err(),
        LockfileCommandError::InvalidPackageName("badformat".to_string())
    );
}

#[test]
fn package_field_with_two_spaces_is_a_fatal_format_error() {
    let c = command("run", "main", Some("foo 1.0 extra"), None);
    let r = LockfileCommand::from_command("local", "0.0.1", &c);
    assert_eq!(
        r.unwrap_err(),
        LockfileCommandError::InvalidPackageName("foo 1.0 extra".to_string())
    );
}

#[test]
fn lockfile_error_messages() {
    assert_eq!(
        LockfileCommandError::ModuleForCommandDoesNotExist.message(),
        "The module for this command does not exist. Did you modify the wapm.lock?"
    );
    assert_eq!(
        LockfileCommandError::InvalidPackageName("badformat".to_string()).message(),
        "invalid package name: badformat"
    );
}

#[test]
fn package_field_splits_non_ascii_names() {
    let c = command("run", "main", Some("héllo 1.0"), None);
    let r = LockfileCommand::from_command("local", "0.0.1", &c).unwrap();
    assert_eq!(r.package_name, "héllo");
    assert_eq!(r.package_version, "1.0");
}

#[test]
fn scenario_one_dependency_and_one_local_command() {
    let found = ManifestResult::from_source("[dependencies]\n\"left-pad\" = \"1.0.0\"\n");
    let packages = ManifestPackages::new_from_result(&found).unwrap();
    assert_eq!(
        packages.keys(),
        vec![PackageKey {
            name: "left-pad".to_string(),
            version: "1.0.0".to_string(),
        }]
    );

    let c = command("run", "main", None, None);
    let r = LockfileCommand::from_command("myapp", "2.0.0", &c).unwrap();
    assert_eq!(
        r,
        LockfileCommand {
            name: "run".to_string(),
            package_name: "myapp".to_string(),
            package_version: "2.0.0".to_string(),
            module: "main".to_string(),
            is_top_level_dependency: true,
            main_args: None,
        }
    );
}
