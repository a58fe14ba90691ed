use vstd::prelude::*;
use vstd::string::StrSliceExecFns;

verus! {

use crate::manifest::Command;

/// Describes a command pinned in a lockfile: the exact package, version and
/// module that provide it.
#[derive(Clone, Debug, PartialEq, Eq)]
pub struct LockfileCommand {
    pub name: String,
    pub package_name: String,
    pub package_version: String,
    pub module: String,
    pub is_top_level_dependency: bool,
    pub main_args: Option<String>,
}

#[derive(Clone, Debug, PartialEq, Eq)]
pub enum LockfileCommandError {
    /// The lockfile names a module that the resolved packages do not
    /// provide; the lockfile is stale relative to the manifest.
    ModuleForCommandDoesNotExist,
    /// A command's `package` field is not of the shape `<name> <version>`.
    InvalidPackageName(String),
}

impl LockfileCommandError {
    /// The description shown to the user.
    pub fn message(&self) -> (r: String)
        ensures
            match self {
                LockfileCommandError::ModuleForCommandDoesNotExist => r@
                    == "The module for this command does not exist. Did you modify the wapm.lock?"@,
                LockfileCommandError::InvalidPackageName(s) => r@ == "invalid package name: "@
                    + s@,
            },
    {
        match self {
            LockfileCommandError::ModuleForCommandDoesNotExist => {
                "The module for this command does not exist. Did you modify the wapm.lock?".to_owned()
            },
            LockfileCommandError::InvalidPackageName(s) => crate::text::concat2(
                "invalid package name: ",
                s.as_str(),
            ),
        }
    }
}

/// Position `i` holds the one and only space of `s`.
pub open spec fn is_single_space_split(s: Seq<char>, i: int) -> bool {
    &&& 0 <= i < s.len()
    &&& s[i] == ' '
    &&& forall|j: int| 0 <= j < s.len() && j != i ==> s[j] != ' '
}

/// Splitting a `package` field on a single space: the package name and
/// version, or nothing when the field is not exactly two tokens.
pub open spec fn split_package(s: Seq<char>) -> Option<(Seq<char>, Seq<char>)> {
    if exists|i: int| is_single_space_split(s, i) {
        let i = choose|i: int| is_single_space_split(s, i);
        Some((s.subrange(0, i), s.subrange(i + 1, s.len() as int)))
    } else {
        None
    }
}

/// Splits `s` at its space when `s` holds exactly one, scanning the
/// characters left to right.
fn split_on_single_space<'a>(s: &'a str) -> (r: Option<(&'a str, &'a str)>)
    ensures
        match r {
            Some(p) => split_package(s@) == Some((p.0@, p.1@)),
            None => split_package(s@) is None,
        },
{
    let len = s.unicode_len();
    let mut i: usize = 0;
    let mut space_at: Option<usize> = None;
    while i < len
        invariant
            i <= len,
            len == s@.len(),
            match space_at {
                Some(k) => k < i && s@[k as int] == ' ' && forall|j: int|
                    0 <= j < i && j != k ==> s@[j] != ' ',
                None => forall|j: int| 0 <= j < i ==> s@[j] != ' ',
            },
        decreases len - i,
    {
        if s.get_char(i) == ' ' {
            match space_at {
                Some(k) => {
                    proof {
                        assert forall|m: int| !is_single_space_split(s@, m) by {
                            assert(s@[k as int] == ' ');
                            assert(s@[i as int] == ' ');
                        }
                    }
                    return None;
                },
                None => {
                    space_at = Some(i);
                },
            }
        }
        i = i + 1;
    }
    match space_at {
        None => {
            proof {
                assert forall|m: int| !is_single_space_split(s@, m) by {
                    if 0 <= m < s@.len() {
                        assert(s@[m] != ' ');
                    }
                }
            }
            None
        },
        Some(k) => {
            proof {
                assert(is_single_space_split(s@, k as int));
                let c = choose|m: int| is_single_space_split(s@, m);
                assert(c == k as int) by {
                    if c != k as int {
                        assert(s@[k as int] != ' ');
                    }
                };
            }
            let name = s.substring_char(0, k);
            let version = s.substring_char(k + 1, len);
            Some((name, version))
        },
    }
}

/// The fields a lockfile record copies verbatim from the manifest command.
pub open spec fn copies_command(c: LockfileCommand, command: Command) -> bool {
    &&& c.name@ == command.name@
    &&& c.module@ == command.module@
    &&& c.is_top_level_dependency == true
    &&& c.main_args == command.main_args
}

impl LockfileCommand {
    /// Derives the lockfile record for `command`. The owning package is
    /// read from the command's `package` field, split as `<name> <version>`;
    /// a field that is not exactly two such tokens is reported as corrupt.
    /// A command without a `package` field belongs to the local package.
    pub fn from_command(
        local_package_name: &str,
        local_package_version: &str,
        command: &Command,
    ) -> (r: Result<LockfileCommand, LockfileCommandError>)
        ensures
            match command.package {
                Some(p) => match split_package(p@) {
                    Some(nv) => r matches Ok(c) && c.package_name@ == nv.0
                        && c.package_version@ == nv.1 && copies_command(c, *command),
                    None => r matches Err(LockfileCommandError::InvalidPackageName(s)) && s@ == p@,
                },
                None => r matches Ok(c) && c.package_name@ == local_package_name@
                    && c.package_version@ == local_package_version@ && copies_command(c, *command),
            },
    {
        let main_args = match &command.main_args {
            Some(a) => Some(a.clone()),
            None => None,
        };
        match &command.package {
            Some(package_string) => {
                match split_on_single_space(package_string.as_str()) {
                    Some((package_name, package_version)) => Ok(
                        LockfileCommand {
                            name: command.name.clone(),
                            package_name: package_name.to_owned(),
                            package_version: package_version.to_owned(),
                            module: command.module.clone(),
                            is_top_level_dependency: true,
                            main_args,
                        },
                    ),
                    None => Err(LockfileCommandError::InvalidPackageName(package_string.clone())),
                }
            },
            None => Ok(
                LockfileCommand {
                    name: command.name.clone(),
                    package_name: local_package_name.to_owned(),
                    package_version: local_package_version.to_owned(),
                    module: command.module.clone(),
                    is_top_level_dependency: true,
                    main_args,
                },
            ),
        }
    }
}

/// A command's `package` field is written `<name> <version>`. Splitting
/// reads the two tokens back verbatim whenever neither holds a space.
pub proof fn lemma_split_package_round_trip(n: Seq<char>, v: Seq<char>)
    requires
        forall|j: int| 0 <= j < n.len() ==> n[j] != ' ',
        forall|j: int| 0 <= j < v.len() ==> v[j] != ' ',
    ensures
        split_package(n + seq![' '] + v) == Some((n, v)),
{
    let s = n + seq![' '] + v;
    let i = n.len() as int;
    assert(s[i] == ' ');
    assert(is_single_space_split(s, i)) by {
        assert forall|j: int| 0 <= j < s.len() && j != i implies s[j] != ' ' by {
            if j < i {
                assert(s[j] == n[j]);
            } else {
                assert(s[j] == v[j - i - 1]);
            }
        }
    };
    assert(exists|m: int| is_single_space_split(s, m));
    let c = choose|m: int| is_single_space_split(s, m);
    assert(c == i) by {
        if c != i {
            assert(s[i] != ' ');
        }
    };
    assert(s.subrange(0, i) =~= n);
    assert(s.subrange(i + 1, s.len() as int) =~= v);
}

} // verus!
