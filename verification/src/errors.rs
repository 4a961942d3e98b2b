//! Error types of the compiler and the registry.

use vstd::prelude::*;

verus! {

/// A fatal error while compiling mapping-table sources.
#[derive(Clone, Copy, PartialEq, Eq, Debug, Structural)]
pub enum BuildError {
    /// A line of a table source has no tab, or an empty key before the tab.
    MalformedLine,
    /// A table that a pass needs has no source of that name.
    MissingTable,
}

/// A fatal error while loading compiled artifacts.
#[derive(Clone, Copy, PartialEq, Eq, Debug, Structural)]
pub enum LoadError {
    /// An artifact did not decompress or deserialize.
    BadArtifact,
}

} // verus!
