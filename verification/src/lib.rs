//! Resolves a package's declared dependency manifest into a deduplicated
//! set of dependency identities and per-command lock records.
pub mod lockfile_command;
pub mod manifest;
pub mod manifest_packages;
pub mod manifest_source;
pub mod text;
