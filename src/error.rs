use vstd::prelude::*;

verus! {

/// Why assets could not be loaded.
#[derive(Clone, Copy, PartialEq, Eq, Debug, Structural)]
pub enum LoadError {
    /// A template directory, the palette or the weights file is missing.
    AssetNotFound,
    /// A template lacks its `guide` or `contents` marker, or a slot id is malformed.
    MalformedTemplate,
    /// A guide shape has the wrong number of segments or is not a path, rect or circle.
    MalformedGuide,
    /// A sub-choice names a section or variant that does not exist.
    InvalidPalette,
    /// Sampling the palette left a section with nothing to choose from.
    EmptyConstraint,
    /// A line of the weights file cannot be read.
    InvalidWeight,
}

} // verus!
