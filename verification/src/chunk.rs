use vstd::prelude::*;
use crate::errors::TileError;
use crate::tile::Tile;

verus! {

/// A fixed-size rectangular batch of tiles: the unit of rebuild. The grid is
/// stored row-major; `dirty` is true iff the chunk has unacknowledged
/// mutations since the last drain.
pub struct Chunk {
    pub coord: (u32, u32),
    pub width: u32,
    pub height: u32,
    pub tiles: Vec<Tile>,
    pub dirty: bool,
}

impl Chunk {
    /// Both extents are positive and the flat grid holds exactly
    /// `width * height` tiles.
    pub open spec fn wf(self) -> bool {
        &&& self.width >= 1
        &&& self.height >= 1
        &&& self.tiles@.len() == self.width as int * self.height as int
    }

    /// Row-major flat index of a local offset.
    pub open spec fn spec_index(self, lx: int, ly: int) -> int {
        ly * self.width as int + lx
    }

    /// The tile at a local offset.
    pub open spec fn spec_tile(self, lx: int, ly: int) -> Tile {
        self.tiles@[self.spec_index(lx, ly)]
    }

    /// Whether a local offset lies inside the chunk.
    pub open spec fn in_bounds(self, lx: int, ly: int) -> bool {
        0 <= lx < self.width as int && 0 <= ly < self.height as int
    }

    /// A fresh chunk with every cell set to `fill`. A new chunk is dirty: its
    /// contents have never been handed to the render collaborator.
    pub fn new(coord: (u32, u32), width: u32, height: u32, fill: Tile) -> (c: Chunk)
        requires
            width >= 1,
            height >= 1,
            width as int * height as int <= usize::MAX as int,
        ensures
            c.wf(),
            c.coord == coord,
            c.width == width,
            c.height == height,
            c.dirty,
            forall|j: int| 0 <= j < c.tiles@.len() ==> c.tiles@[j] == fill,
            forall|lx: int, ly: int| c.in_bounds(lx, ly) ==> c.spec_tile(lx, ly) == fill,
    {
        proof {
            assert(width as int * height as int >= 0) by (nonlinear_arith)
                requires
                    width >= 1,
                    height >= 1,
            ;
        }
        let total: usize = (width as usize) * (height as usize);
        let mut tiles: Vec<Tile> = Vec::new();
        let mut k: usize = 0;
        while k < total
            invariant
                k <= total,
                tiles@.len() == k,
                forall|j: int| 0 <= j < k ==> tiles@[j] == fill,
            decreases total - k,
        {
            tiles.push(fill);
            k = k + 1;
        }
        let c = Chunk { coord, width, height, tiles, dirty: true };
        proof {
            assert forall|lx: int, ly: int| c.in_bounds(lx, ly) implies c.spec_tile(lx, ly)
                == fill by {
                lemma_chunk_index_in_range(c, lx, ly);
            }
        }
        c
    }

    /// Replaces every cell with `tile` in one pass and marks the chunk
    /// dirty.
    pub fn fill_all(&mut self, tile: Tile)
        requires
            old(self).wf(),
        ensures
            final(self).wf(),
            final(self).coord == old(self).coord,
            final(self).width == old(self).width,
            final(self).height == old(self).height,
            final(self).dirty,
            final(self).tiles@.len() == old(self).tiles@.len(),
            forall|j: int| 0 <= j < final(self).tiles@.len() ==> final(self).tiles@[j] == tile,
    {
        let n = self.tiles.len();
        let mut k: usize = 0;
        while k < n
            invariant
                k <= n,
                n == self.tiles@.len(),
                self.coord == old(self).coord,
                self.width == old(self).width,
                self.height == old(self).height,
                self.dirty == old(self).dirty,
                self.tiles@.len() == old(self).tiles@.len(),
                forall|j: int| 0 <= j < k ==> self.tiles@[j] == tile,
            decreases n - k,
        {
            self.tiles[k] = tile;
            k = k + 1;
        }
        self.dirty = true;
    }

    /// Replaces the one cell at `(lx, ly)` and marks the chunk dirty; fails
    /// `OutOfBounds`, changing nothing, if the offset lies outside the
    /// chunk.
    pub fn set(&mut self, lx: u32, ly: u32, tile: Tile) -> (r: Result<(), TileError>)
        requires
            old(self).wf(),
        ensures
            final(self).wf(),
            final(self).coord == old(self).coord,
            final(self).width == old(self).width,
            final(self).height == old(self).height,
            old(self).in_bounds(lx as int, ly as int) ==> {
                &&& r == Ok::<(), TileError>(())
                &&& final(self).dirty
                &&& final(self).tiles@ == old(self).tiles@.update(
                    old(self).spec_index(lx as int, ly as int),
                    tile,
                )
            },
            !old(self).in_bounds(lx as int, ly as int) ==> {
                &&& r == Err::<(), TileError>(TileError::OutOfBounds)
                &&& *final(self) == *old(self)
            },
    {
        if lx < self.width && ly < self.height {
            proof {
                vstd::std_specs::vec::axiom_spec_len(&self.tiles);
                lemma_chunk_index_in_range(*self, lx as int, ly as int);
            }
            let i: usize = (ly as usize) * (self.width as usize) + (lx as usize);
            self.tiles[i] = tile;
            self.dirty = true;
            Ok(())
        } else {
            Err(TileError::OutOfBounds)
        }
    }

    /// Reads the cell at `(lx, ly)`; fails `OutOfBounds` if the offset lies
    /// outside the chunk. Never mutates.
    pub fn get(&self, lx: u32, ly: u32) -> (r: Result<Tile, TileError>)
        requires
            self.wf(),
        ensures
            self.in_bounds(lx as int, ly as int) ==> r == Ok::<Tile, TileError>(
                self.spec_tile(lx as int, ly as int),
            ),
            !self.in_bounds(lx as int, ly as int) ==> r == Err::<Tile, TileError>(
                TileError::OutOfBounds,
            ),
    {
        if lx < self.width && ly < self.height {
            proof {
                vstd::std_specs::vec::axiom_spec_len(&self.tiles);
                lemma_chunk_index_in_range(*self, lx as int, ly as int);
            }
            let i: usize = (ly as usize) * (self.width as usize) + (lx as usize);
            Ok(self.tiles[i])
        } else {
            Err(TileError::OutOfBounds)
        }
    }

    /// Clears the dirty flag; called by the render collaborator once it has
    /// consumed the chunk's current contents. Nothing else changes.
    pub fn acknowledge_rebuild(&mut self)
        ensures
            *final(self) == (Chunk { dirty: false, ..*old(self) }),
    {
        self.dirty = false;
    }
}

/// A local offset inside the chunk has a flat index inside the tile vector.
pub proof fn lemma_chunk_index_in_range(c: Chunk, lx: int, ly: int)
    requires
        c.wf(),
        c.in_bounds(lx, ly),
    ensures
        0 <= c.spec_index(lx, ly) < c.tiles@.len(),
{
    assert(0 <= ly * c.width as int + lx < c.width as int * c.height as int) by (nonlinear_arith)
        requires
            0 <= lx < c.width as int,
            0 <= ly < c.height as int,
    ;
}

} // verus!
