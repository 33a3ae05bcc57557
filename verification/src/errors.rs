use vstd::prelude::*;

verus! {

/// Every failure the core can report.
///
/// Configuration problems are fatal to startup; the remaining kinds are
/// recoverable and returned to the caller as typed results.
#[derive(Clone, Copy, Debug, PartialEq, Eq, Structural)]
pub enum TileError {
    /// The configuration is malformed or not representable.
    ConfigParseError,
    /// A tile coordinate lies outside the world, or a local offset lies
    /// outside its chunk.
    OutOfBounds,
    /// No layer carries the requested id.
    LayerNotFound,
    /// The layer holds no chunk at the requested chunk coordinate.
    ChunkNotFound,
    /// A layer with the same id is already registered.
    DuplicateLayer,
    /// The layer was already built.
    AlreadyBuilt,
    /// The layer's chunk set is frozen; chunks can no longer be added.
    StructuralEditAfterBuild,
}

} // verus!
