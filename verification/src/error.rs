//! Errors of the readers.
use crate::manifest::ManifestKind;
use vstd::prelude::*;

verus! {

/// An error produced while parsing a manifest or lockfile.
#[derive(Debug)]
pub enum ParseError {
    /// The input was not valid TOML.
    Toml(toml_edit::TomlError),
    /// No reader exists for this manifest kind.
    Unsupported(ManifestKind),
    /// The input was structurally not what was expected.
    Malformed(String),
}

} // verus!
