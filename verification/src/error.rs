//! Failures of atlas baking.

use vstd::prelude::*;

verus! {

/// Why an atlas could not be baked.
#[derive(Clone, Copy, Debug, PartialEq, Eq, Structural)]
pub enum BakeError {
    /// The glyphs do not fit into an atlas of the requested resolution.
    AtlasOverflow,
    /// The requested resolution cannot be cut into whole blocks of 8 by 4
    /// pixels.
    UnalignedAtlas,
}

} // verus!
