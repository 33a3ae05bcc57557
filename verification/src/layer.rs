use vstd::prelude::*;
use vstd::arithmetic::div_mod::{
    lemma_fundamental_div_mod_converse, lemma_mod_division_less_than_divisor,
    lemma_multiply_divide_lt, lemma_div_pos_is_pos,
};
use crate::chunk::Chunk;
use crate::coords::{chunk_count, spec_chunk_count};
use crate::errors::TileError;
use crate::tile::{Tile, spec_default_tile};

verus! {

/// One full tiled plane of the world, made of chunks laid out in a dense
/// grid. A layer starts unbuilt; chunks may be added one by one while it is
/// unbuilt, and `build` fills in the rest and freezes the chunk set.
pub struct Layer {
    pub id: u32,
    pub chunk_width: u32,
    pub chunk_height: u32,
    pub tile_width: i64,
    pub tile_height: i64,
    pub chunks_x: u32,
    pub chunks_y: u32,
    pub chunks: Vec<Option<Chunk>>,
    pub built: bool,
}

impl Layer {
    /// Row-major flat index of a chunk coordinate.
    pub open spec fn grid_index(self, cx: int, cy: int) -> int {
        cy * self.chunks_x as int + cx
    }

    /// Whether a chunk coordinate lies inside the layer's chunk grid.
    pub open spec fn grid_in_bounds(self, cx: int, cy: int) -> bool {
        0 <= cx < self.chunks_x as int && 0 <= cy < self.chunks_y as int
    }

    /// The slot at a chunk coordinate inside the grid.
    pub open spec fn spec_chunk(self, cx: int, cy: int) -> Option<Chunk> {
        self.chunks@[self.grid_index(cx, cy)]
    }

    /// An occupied slot holds a well-formed chunk whose extents are the
    /// layer's chunk extents and whose coordinate matches its position in
    /// the grid.
    pub open spec fn chunk_ok(self, i: int) -> bool {
        self.chunks@[i] matches Some(c) ==> {
            &&& c.wf()
            &&& c.width == self.chunk_width
            &&& c.height == self.chunk_height
            &&& c.coord.0 == i % (self.chunks_x as int)
            &&& c.coord.1 == i / (self.chunks_x as int)
        }
    }

    /// The chunk extents are positive and representable, the grid vector
    /// covers the whole chunk grid, and every occupied slot is consistent.
    pub open spec fn wf(self) -> bool {
        &&& self.chunk_width >= 1
        &&& self.chunk_height >= 1
        &&& self.tile_width >= 1
        &&& self.tile_height >= 1
        &&& self.chunk_width as int * self.chunk_height as int <= usize::MAX as int
        &&& self.chunks@.len() == self.chunks_x as int * self.chunks_y as int
        &&& forall|i: int| 0 <= i < self.chunks@.len() ==> #[trigger] self.chunk_ok(i)
    }

    /// Every slot of the grid holds a chunk.
    pub open spec fn fully_built(self) -> bool {
        forall|i: int| 0 <= i < self.chunks@.len() ==> self.chunks@[i] is Some
    }

    /// An unbuilt, empty layer sized for a map of `map_width x map_height`
    /// tiles: its grid covers the map with `chunk_count` chunks per axis,
    /// and no chunk exists yet.
    pub fn new(
        id: u32,
        map_width: u32,
        map_height: u32,
        chunk_width: u32,
        chunk_height: u32,
        tile_width: i64,
        tile_height: i64,
    ) -> (l: Layer)
        requires
            chunk_width >= 1,
            chunk_height >= 1,
            tile_width >= 1,
            tile_height >= 1,
            map_width as int * map_height as int <= usize::MAX as int,
            chunk_width as int * chunk_height as int <= usize::MAX as int,
        ensures
            l.wf(),
            !l.built,
            l.id == id,
            l.chunk_width == chunk_width,
            l.chunk_height == chunk_height,
            l.tile_width == tile_width,
            l.tile_height == tile_height,
            l.chunks_x == spec_chunk_count(map_width as int, chunk_width as int),
            l.chunks_y == spec_chunk_count(map_height as int, chunk_height as int),
            forall|i: int| 0 <= i < l.chunks@.len() ==> l.chunks@[i] is None,
    {
        let cx = chunk_count(map_width, chunk_width);
        let cy = chunk_count(map_height, chunk_height);
        proof {
            assert(0 <= cx as int * cy as int <= map_width as int * map_height as int)
                by (nonlinear_arith)
                requires
                    0 <= cx as int <= map_width as int,
                    0 <= cy as int <= map_height as int,
            ;
        }
        let total: usize = (cx as usize) * (cy as usize);
        let mut chunks: Vec<Option<Chunk>> = Vec::new();
        let mut k: usize = 0;
        while k < total
            invariant
                k <= total,
                chunks@.len() == k,
                forall|j: int| 0 <= j < k ==> chunks@[j] is None,
            decreases total - k,
        {
            chunks.push(None);
            k = k + 1;
        }
        Layer {
            id,
            chunk_width,
            chunk_height,
            tile_width,
            tile_height,
            chunks_x: cx,
            chunks_y: cy,
            chunks,
            built: false,
        }
    }

    /// Adds the chunk at `(cx, cy)`, filled with the default tile: the lazy
    /// structural edit of an unbuilt layer. Fails `StructuralEditAfterBuild`
    /// once the layer is built, and `OutOfBounds` outside the grid; adding a
    /// chunk that already exists changes nothing.
    pub fn add_chunk(&mut self, cx: u32, cy: u32) -> (r: Result<(), TileError>)
        requires
            old(self).wf(),
        ensures
            final(self).wf(),
            final(self).id == old(self).id,
            final(self).chunk_width == old(self).chunk_width,
            final(self).chunk_height == old(self).chunk_height,
            final(self).tile_width == old(self).tile_width,
            final(self).tile_height == old(self).tile_height,
            final(self).chunks_x == old(self).chunks_x,
            final(self).chunks_y == old(self).chunks_y,
            final(self).built == old(self).built,
            old(self).built ==> {
                &&& r == Err::<(), TileError>(TileError::StructuralEditAfterBuild)
                &&& *final(self) == *old(self)
            },
            !old(self).built && !old(self).grid_in_bounds(cx as int, cy as int) ==> {
                &&& r == Err::<(), TileError>(TileError::OutOfBounds)
                &&& *final(self) == *old(self)
            },
            !old(self).built && old(self).grid_in_bounds(cx as int, cy as int)
                && old(self).spec_chunk(cx as int, cy as int) is Some ==> {
                &&& r == Ok::<(), TileError>(())
                &&& *final(self) == *old(self)
            },
            !old(self).built && old(self).grid_in_bounds(cx as int, cy as int)
                && old(self).spec_chunk(cx as int, cy as int) is None ==> {
                &&& r == Ok::<(), TileError>(())
                &&& final(self).chunks@.len() == old(self).chunks@.len()
                &&& forall|j: int|
                    0 <= j < old(self).chunks@.len() && j != old(self).grid_index(
                        cx as int,
                        cy as int,
                    ) ==> final(self).chunks@[j] == old(self).chunks@[j]
                &&& final(self).spec_chunk(cx as int, cy as int) matches Some(c) && c.coord == (
                    cx,
                    cy,
                ) && c.dirty && (forall|lx: int, ly: int|
                    c.in_bounds(lx, ly) ==> c.spec_tile(lx, ly) == spec_default_tile())
            },
    {
        if self.built {
            return Err(TileError::StructuralEditAfterBuild);
        }
        if !(cx < self.chunks_x && cy < self.chunks_y) {
            return Err(TileError::OutOfBounds);
        }
        proof {
            vstd::std_specs::vec::axiom_spec_len(&self.chunks);
            lemma_grid_index_in_range(*self, cx as int, cy as int);
        }
        let i: usize = (cy as usize) * (self.chunks_x as usize) + (cx as usize);
        if self.chunks[i].is_some() {
            return Ok(());
        }
        let c = Chunk::new((cx, cy), self.chunk_width, self.chunk_height, Tile::default());
        self.chunks[i] = Some(c);
        proof {
            lemma_grid_coord_of_index(self.chunks_x as int, cx as int, cy as int);
            assert forall|j: int| 0 <= j < self.chunks@.len() implies #[trigger] self.chunk_ok(
                j,
            ) by {
                assert(old(self).chunk_ok(j));
            }
        }
        Ok(())
    }

    /// Builds the layer: instantiates every chunk of the grid that does not
    /// exist yet, each filled with the default tile, and freezes the chunk
    /// set. Chunks added before the build keep their contents. Building a
    /// built layer fails `AlreadyBuilt` and changes nothing.
    pub fn build(&mut self) -> (r: Result<(), TileError>)
        requires
            old(self).wf(),
        ensures
            final(self).wf(),
            final(self).id == old(self).id,
            final(self).chunk_width == old(self).chunk_width,
            final(self).chunk_height == old(self).chunk_height,
            final(self).tile_width == old(self).tile_width,
            final(self).tile_height == old(self).tile_height,
            final(self).chunks_x == old(self).chunks_x,
            final(self).chunks_y == old(self).chunks_y,
            final(self).chunks@.len() == old(self).chunks@.len(),
            old(self).built ==> {
                &&& r == Err::<(), TileError>(TileError::AlreadyBuilt)
                &&& *final(self) == *old(self)
            },
            !old(self).built ==> {
                &&& r == Ok::<(), TileError>(())
                &&& final(self).built
                &&& final(self).fully_built()
                &&& forall|j: int|
                    0 <= j < old(self).chunks@.len() && old(self).chunks@[j] is Some
                        ==> final(self).chunks@[j] == old(self).chunks@[j]
                &&& forall|j: int|
                    0 <= j < old(self).chunks@.len() && old(self).chunks@[j] is None
                        ==> (final(self).chunks@[j] matches Some(c) && c.dirty && (forall|
                        lx: int,
                        ly: int,
                    |
                        c.in_bounds(lx, ly) ==> c.spec_tile(lx, ly) == spec_default_tile()))
            },
    {
        if self.built {
            return Err(TileError::AlreadyBuilt);
        }
        let n = self.chunks.len();
        let mut k: usize = 0;
        while k < n
            invariant
                k <= n,
                n == self.chunks@.len(),
                self.wf(),
                !self.built,
                self.id == old(self).id,
                self.chunk_width == old(self).chunk_width,
                self.chunk_height == old(self).chunk_height,
                self.tile_width == old(self).tile_width,
                self.tile_height == old(self).tile_height,
                self.chunks_x == old(self).chunks_x,
                self.chunks_y == old(self).chunks_y,
                self.chunks@.len() == old(self).chunks@.len(),
                forall|j: int| k <= j < n ==> self.chunks@[j] == old(self).chunks@[j],
                forall|j: int|
                    0 <= j < n && old(self).chunks@[j] is Some
                        ==> self.chunks@[j] == old(self).chunks@[j],
                forall|j: int| 0 <= j < k ==> self.chunks@[j] is Some,
                forall|j: int|
                    0 <= j < k && old(self).chunks@[j] is None ==> (self.chunks@[j] matches Some(c)
                        && c.dirty && (forall|lx: int, ly: int|
                        c.in_bounds(lx, ly) ==> c.spec_tile(lx, ly) == spec_default_tile())),
            decreases n - k,
        {
            if self.chunks[k].is_none() {
                proof {
                    if self.chunks_x == 0 {
                        assert(self.chunks@.len() == 0);
                    }
                    lemma_mod_division_less_than_divisor(k as int, self.chunks_x as int);
                    lemma_multiply_divide_lt(k as int, self.chunks_x as int, self.chunks_y as int);
                    lemma_div_pos_is_pos(k as int, self.chunks_x as int);
                }
                let ghost pre = *self;
                let cxu: usize = k % (self.chunks_x as usize);
                let cyu: usize = k / (self.chunks_x as usize);
                let c = Chunk::new(
                    (cxu as u32, cyu as u32),
                    self.chunk_width,
                    self.chunk_height,
                    Tile::default(),
                );
                self.chunks[k] = Some(c);
                proof {
                    assert forall|j: int|
                        0 <= j < self.chunks@.len() implies #[trigger] self.chunk_ok(j) by {
                        assert(pre.chunk_ok(j));
                    }
                }
            }
            k = k + 1;
        }
        let ghost pre = *self;
        self.built = true;
        proof {
            assert forall|j: int| 0 <= j < self.chunks@.len() implies #[trigger] self.chunk_ok(
                j,
            ) by {
                assert(pre.chunk_ok(j));
            }
        }
        Ok(())
    }

    /// The chunk at `(cx, cy)`; fails `ChunkNotFound` if the coordinate lies
    /// outside the grid or the layer was never built over it.
    pub fn chunk_at(&self, cx: u32, cy: u32) -> (r: Result<&Chunk, TileError>)
        requires
            self.wf(),
        ensures
            self.grid_in_bounds(cx as int, cy as int) && self.spec_chunk(
                cx as int,
                cy as int,
            ) is Some ==> (r matches Ok(c) && Some(*c) == self.spec_chunk(cx as int, cy as int)),
            !(self.grid_in_bounds(cx as int, cy as int) && self.spec_chunk(
                cx as int,
                cy as int,
            ) is Some) ==> r == Err::<&Chunk, TileError>(TileError::ChunkNotFound),
    {
        if cx < self.chunks_x && cy < self.chunks_y {
            let n = self.chunks.len();
            proof {
                lemma_grid_index_in_range(*self, cx as int, cy as int);
            }
            let i: usize = (cy as usize) * (self.chunks_x as usize) + (cx as usize);
            match &self.chunks[i] {
                Some(c) => Ok(c),
                None => Err(TileError::ChunkNotFound),
            }
        } else {
            Err(TileError::ChunkNotFound)
        }
    }

    /// Writes `tile` at local offset `(lx, ly)` of the chunk at `(cx, cy)`
    /// and marks that chunk dirty. Fails `ChunkNotFound` if no chunk exists
    /// there, `OutOfBounds` if the local offset lies outside the chunk;
    /// failures change nothing.
    pub fn set_in_chunk(&mut self, cx: u32, cy: u32, lx: u32, ly: u32, tile: Tile) -> (r: Result<
        (),
        TileError,
    >)
        requires
            old(self).wf(),
        ensures
            final(self).wf(),
            final(self).id == old(self).id,
            final(self).chunk_width == old(self).chunk_width,
            final(self).chunk_height == old(self).chunk_height,
            final(self).tile_width == old(self).tile_width,
            final(self).tile_height == old(self).tile_height,
            final(self).chunks_x == old(self).chunks_x,
            final(self).chunks_y == old(self).chunks_y,
            final(self).built == old(self).built,
            final(self).chunks@.len() == old(self).chunks@.len(),
            !(old(self).grid_in_bounds(cx as int, cy as int) && old(self).spec_chunk(
                cx as int,
                cy as int,
            ) is Some) ==> {
                &&& r == Err::<(), TileError>(TileError::ChunkNotFound)
                &&& *final(self) == *old(self)
            },
            old(self).grid_in_bounds(cx as int, cy as int) ==> (old(self).spec_chunk(
                cx as int,
                cy as int,
            ) matches Some(c0) ==> {
                &&& !c0.in_bounds(lx as int, ly as int) ==> {
                    &&& r == Err::<(), TileError>(TileError::OutOfBounds)
                    &&& *final(self) == *old(self)
                }
                &&& c0.in_bounds(lx as int, ly as int) ==> {
                    &&& r == Ok::<(), TileError>(())
                    &&& (forall|j: int|
                        0 <= j < old(self).chunks@.len() && j != old(self).grid_index(
                            cx as int,
                            cy as int,
                        ) ==> final(self).chunks@[j] == old(self).chunks@[j])
                    &&& final(self).spec_chunk(cx as int, cy as int) matches Some(c1) && c1.coord
                        == c0.coord && c1.width == c0.width && c1.height == c0.height && c1.dirty
                        && c1.tiles@ == c0.tiles@.update(
                        c0.spec_index(lx as int, ly as int),
                        tile,
                    )
                }
            }),
    {
        if !(cx < self.chunks_x && cy < self.chunks_y) {
            return Err(TileError::ChunkNotFound);
        }
        proof {
            vstd::std_specs::vec::axiom_spec_len(&self.chunks);
            lemma_grid_index_in_range(*self, cx as int, cy as int);
        }
        let i: usize = (cy as usize) * (self.chunks_x as usize) + (cx as usize);
        proof {
            assert(old(self).chunk_ok(i as int));
        }
        if self.chunks[i].is_none() {
            return Err(TileError::ChunkNotFound);
        }
        if !(lx < self.chunk_width && ly < self.chunk_height) {
            return Err(TileError::OutOfBounds);
        }
        let r = match &mut self.chunks[i] {
            Some(c) => c.set(lx, ly, tile),
            None => Err(TileError::ChunkNotFound),
        };
        proof {
            assert forall|j: int| 0 <= j < self.chunks@.len() implies #[trigger] self.chunk_ok(
                j,
            ) by {
                assert(old(self).chunk_ok(j));
            }
        }
        r
    }

    /// Clears the dirty flag of the chunk at `(cx, cy)`: the render
    /// collaborator has consumed its contents. Fails `ChunkNotFound` if no
    /// chunk exists there.
    pub fn acknowledge_chunk(&mut self, cx: u32, cy: u32) -> (r: Result<(), TileError>)
        requires
            old(self).wf(),
        ensures
            final(self).wf(),
            final(self).id == old(self).id,
            final(self).chunk_width == old(self).chunk_width,
            final(self).chunk_height == old(self).chunk_height,
            final(self).tile_width == old(self).tile_width,
            final(self).tile_height == old(self).tile_height,
            final(self).chunks_x == old(self).chunks_x,
            final(self).chunks_y == old(self).chunks_y,
            final(self).built == old(self).built,
            final(self).chunks@.len() == old(self).chunks@.len(),
            !(old(self).grid_in_bounds(cx as int, cy as int) && old(self).spec_chunk(
                cx as int,
                cy as int,
            ) is Some) ==> {
                &&& r == Err::<(), TileError>(TileError::ChunkNotFound)
                &&& *final(self) == *old(self)
            },
            old(self).grid_in_bounds(cx as int, cy as int) ==> (old(self).spec_chunk(
                cx as int,
                cy as int,
            ) matches Some(c0) ==> {
                &&& r == Ok::<(), TileError>(())
                &&& (forall|j: int|
                    0 <= j < old(self).chunks@.len() && j != old(self).grid_index(
                        cx as int,
                        cy as int,
                    ) ==> final(self).chunks@[j] == old(self).chunks@[j])
                &&& final(self).spec_chunk(cx as int, cy as int) == Some(
                    (Chunk { dirty: false, ..c0 }),
                )
            }),
    {
        if !(cx < self.chunks_x && cy < self.chunks_y) {
            return Err(TileError::ChunkNotFound);
        }
        proof {
            vstd::std_specs::vec::axiom_spec_len(&self.chunks);
            lemma_grid_index_in_range(*self, cx as int, cy as int);
        }
        let i: usize = (cy as usize) * (self.chunks_x as usize) + (cx as usize);
        proof {
            assert(old(self).chunk_ok(i as int));
        }
        if self.chunks[i].is_none() {
            return Err(TileError::ChunkNotFound);
        }
        let r = match &mut self.chunks[i] {
            Some(c) => {
                c.acknowledge_rebuild();
                Ok(())
            },
            None => Err(TileError::ChunkNotFound),
        };
        proof {
            assert forall|j: int| 0 <= j < self.chunks@.len() implies #[trigger] self.chunk_ok(
                j,
            ) by {
                assert(old(self).chunk_ok(j));
            }
        }
        r
    }
}

/// A chunk coordinate inside the grid has a flat index inside the chunk
/// vector.
pub proof fn lemma_grid_index_in_range(l: Layer, cx: int, cy: int)
    requires
        l.wf(),
        l.grid_in_bounds(cx, cy),
    ensures
        0 <= l.grid_index(cx, cy) < l.chunks@.len(),
{
    assert(0 <= cy * l.chunks_x as int + cx < l.chunks_x as int * l.chunks_y as int)
        by (nonlinear_arith)
        requires
            0 <= cx < l.chunks_x as int,
            0 <= cy < l.chunks_y as int,
    ;
}

/// The flat index `cy * x + cx` decomposes back into `(cx, cy)`.
pub proof fn lemma_grid_coord_of_index(x: int, cx: int, cy: int)
    requires
        0 <= cx < x,
        0 <= cy,
    ensures
        (cy * x + cx) % x == cx,
        (cy * x + cx) / x == cy,
{
    lemma_fundamental_div_mod_converse(cy * x + cx, x, cy, cx);
}

} // verus!
