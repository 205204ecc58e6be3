//! Errors reported while loading a map. All of them are fatal to the load:
//! one bad feature fails the whole collection.

use vstd::prelude::*;

verus! {

/// What went wrong while loading a map.
#[derive(Clone, Copy, PartialEq, Eq, Structural, Debug)]
pub enum LoadErrorKind {
    /// No id could be resolved for a feature.
    MissingId,
    /// No name could be resolved for a feature.
    MissingName,
    /// A feature carried no geometry, or one of an unsupported kind.
    MissingOrInvalidGeometry,
    /// The map data could not be read from its source.
    MapReadFailure,
    /// The map document was malformed.
    MapParseFailure,
}

/// A descriptive load-time error naming the reason the map was rejected.
#[derive(Clone, Debug)]
pub struct MapLoadError {
    pub kind: LoadErrorKind,
    pub reason: String,
}

impl MapLoadError {
    /// A fresh error of the given kind.
    pub fn new(kind: LoadErrorKind, reason: String) -> (r: MapLoadError)
        ensures
            r.kind == kind,
            r.reason@ == reason@,
    {
        MapLoadError { kind, reason }
    }

    /// The full human-readable message.
    pub fn message(&self) -> (r: String)
        ensures
            r@ == "failed to load map: "@ + self.reason@,
    {
        let prefix = String::from_str("failed to load map: ");
        prefix.concat(self.reason.as_str())
    }
}

} // verus!
