use vstd::prelude::*;

verus! {

/// The smallest addressable cell of the world: a texture index plus a bitset
/// of flags. A tile is replaced wholesale on mutation, never edited in place.
#[derive(Clone, Copy, Debug, PartialEq, Eq, Structural)]
pub struct Tile {
    pub texture_index: u32,
    pub flags: u32,
}

impl Tile {
    pub fn new(texture_index: u32, flags: u32) -> (t: Tile)
        ensures
            t.texture_index == texture_index,
            t.flags == flags,
    {
        Tile { texture_index, flags }
    }
}

/// The tile every chunk cell starts out as: texture 0, no flags.
pub open spec fn spec_default_tile() -> Tile {
    Tile { texture_index: 0, flags: 0 }
}

impl Default for Tile {
    fn default() -> (t: Tile)
        ensures
            t == spec_default_tile(),
    {
        Tile { texture_index: 0, flags: 0 }
    }
}

} // verus!
