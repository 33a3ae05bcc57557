use vstd::prelude::*;
use vstd::arithmetic::div_mod::{lemma_div_pos_is_pos, lemma_div_nonincreasing,
    lemma_mod_division_less_than_divisor};
use crate::coords::{spec_chunk_of, spec_local_of, tile_to_chunk};
use crate::errors::TileError;
use crate::layer::{Layer, lemma_grid_index_in_range};
use crate::notifier::RebuildToken;
use crate::tile::Tile;

verus! {

/// The full multi-layer tiled world: an ordered collection of layers (the
/// insertion order is the z-order) over a `width x height` tile extent.
pub struct TileWorld {
    pub width: u32,
    pub height: u32,
    pub layers: Vec<Layer>,
}

/// The rebuild token that a successful write of tile `(tx, ty)` produces:
/// it names the written layer and the chunk holding the tile.
pub open spec fn spec_token_for(layer_id: u32, tx: int, ty: int, chunk_w: int, chunk_h: int)
    -> RebuildToken {
    RebuildToken {
        layer_id,
        chunk_x: spec_chunk_of(tx, chunk_w) as u32,
        chunk_y: spec_chunk_of(ty, chunk_h) as u32,
    }
}

impl TileWorld {
    /// Some layer carries this id.
    pub open spec fn has_layer(self, id: int) -> bool {
        exists|i: int| 0 <= i < self.layers@.len() && #[trigger] self.layers@[i].id == id
    }

    /// The position of the layer carrying this id.
    pub open spec fn layer_index(self, id: int) -> int {
        choose|i: int| 0 <= i < self.layers@.len() && #[trigger] self.layers@[i].id == id
    }

    /// The layer carrying this id.
    pub open spec fn spec_layer(self, id: int) -> Layer {
        self.layers@[self.layer_index(id)]
    }

    /// Every layer is well-formed and no two layers share an id.
    pub open spec fn wf(self) -> bool {
        &&& forall|i: int| 0 <= i < self.layers@.len() ==> (#[trigger] self.layers@[i]).wf()
        &&& forall|i: int, j: int|
            #![trigger self.layers@[i].id, self.layers@[j].id]
            0 <= i < j < self.layers@.len() ==> self.layers@[i].id != self.layers@[j].id
    }

    /// Whether a tile coordinate lies inside the world extent.
    pub open spec fn in_world(self, tx: int, ty: int) -> bool {
        0 <= tx < self.width as int && 0 <= ty < self.height as int
    }

    /// An empty world of the given extent, with no layers yet.
    pub fn new(width: u32, height: u32) -> (w: TileWorld)
        ensures
            w.wf(),
            w.width == width,
            w.height == height,
            w.layers@.len() == 0,
    {
        TileWorld { width, height, layers: Vec::new() }
    }

    /// The position of the layer carrying `id`, if any.
    fn find_layer(&self, id: u32) -> (r: Option<usize>)
        requires
            self.wf(),
        ensures
            r matches Some(i) ==> {
                &&& i < self.layers@.len()
                &&& self.layers@[i as int].id == id
                &&& self.has_layer(id as int)
                &&& i as int == self.layer_index(id as int)
            },
            r is None ==> !self.has_layer(id as int),
    {
        let n = self.layers.len();
        let mut i: usize = 0;
        while i < n
            invariant
                self.wf(),
                n == self.layers@.len(),
                i <= n,
                forall|j: int| 0 <= j < i ==> self.layers@[j].id != id,
            decreases n - i,
        {
            if self.layers[i].id == id {
                proof {
                    assert(self.has_layer(id as int));
                    let k = self.layer_index(id as int);
                    assert(0 <= k < self.layers@.len() && self.layers@[k].id == id);
                    if k != i as int {
                        assert(false);
                    }
                }
                return Some(i);
            }
            i = i + 1;
        }
        None
    }

    /// Registers `layer` under `id` at the top of the z-order. Fails
    /// `DuplicateLayer`, changing nothing, if a layer with this id exists.
    pub fn add_layer(&mut self, id: u32, layer: Layer) -> (r: Result<(), TileError>)
        requires
            old(self).wf(),
            layer.wf(),
        ensures
            final(self).wf(),
            final(self).width == old(self).width,
            final(self).height == old(self).height,
            old(self).has_layer(id as int) ==> {
                &&& r == Err::<(), TileError>(TileError::DuplicateLayer)
                &&& *final(self) == *old(self)
            },
            !old(self).has_layer(id as int) ==> {
                &&& r == Ok::<(), TileError>(())
                &&& final(self).layers@ == old(self).layers@.push((Layer { id, ..layer }))
            },
    {
        match self.find_layer(id) {
            Some(_) => Err(TileError::DuplicateLayer),
            None => {
                let mut l = layer;
                l.id = id;
                proof {
                    assert forall|ii: int|
                        0 <= ii < l.chunks@.len() implies #[trigger] l.chunk_ok(ii) by {
                        assert(layer.chunk_ok(ii));
                    }
                    assert(l.wf());
                }
                self.layers.push(l);
                proof {
                    let n = self.layers@.len();
                    assert forall|a: int| 0 <= a < n implies (#[trigger] self.layers@[a]).wf() by {
                        if a < n - 1 {
                            assert(old(self).layers@[a].wf());
                        }
                    }
                    assert forall|a: int, b: int|
                        #![trigger self.layers@[a].id, self.layers@[b].id]
                        0 <= a < b < n implies self.layers@[a].id != self.layers@[b].id by {
                        if b < n - 1 {
                            assert(old(self).layers@[a].id != old(self).layers@[b].id);
                        } else {
                            assert(!(old(self).layers@[a].id == id));
                        }
                    }
                }
                Ok(())
            },
        }
    }

    /// The layer carrying `id`; fails `LayerNotFound` if there is none.
    pub fn layer_at(&self, id: u32) -> (r: Result<&Layer, TileError>)
        requires
            self.wf(),
        ensures
            self.has_layer(id as int) ==> (r matches Ok(l) && *l == self.spec_layer(id as int)),
            !self.has_layer(id as int) ==> r == Err::<&Layer, TileError>(TileError::LayerNotFound),
    {
        match self.find_layer(id) {
            Some(i) => Ok(&self.layers[i]),
            None => Err(TileError::LayerNotFound),
        }
    }

    /// Writes `tile` at world coordinate `(tx, ty)` of the layer carrying
    /// `layer_id`, marks the holding chunk dirty, and returns the rebuild
    /// token for that chunk. Fails `LayerNotFound` for an unknown layer,
    /// `OutOfBounds` for a coordinate outside the world, and `ChunkNotFound`
    /// where the layer was never built over the coordinate; failures change
    /// nothing.
    pub fn set_tile(&mut self, layer_id: u32, tx: u32, ty: u32, tile: Tile) -> (r: Result<
        RebuildToken,
        TileError,
    >)
        requires
            old(self).wf(),
        ensures
            final(self).wf(),
            final(self).width == old(self).width,
            final(self).height == old(self).height,
            final(self).layers@.len() == old(self).layers@.len(),
            !old(self).has_layer(layer_id as int) ==> {
                &&& r == Err::<RebuildToken, TileError>(TileError::LayerNotFound)
                &&& *final(self) == *old(self)
            },
            old(self).has_layer(layer_id as int) && !old(self).in_world(tx as int, ty as int)
                ==> {
                &&& r == Err::<RebuildToken, TileError>(TileError::OutOfBounds)
                &&& *final(self) == *old(self)
            },
            old(self).has_layer(layer_id as int) && old(self).in_world(tx as int, ty as int)
                ==> ({
                let li = old(self).layer_index(layer_id as int);
                let l0 = old(self).layers@[li];
                let ccx = spec_chunk_of(tx as int, l0.chunk_width as int);
                let ccy = spec_chunk_of(ty as int, l0.chunk_height as int);
                let llx = spec_local_of(tx as int, l0.chunk_width as int);
                let lly = spec_local_of(ty as int, l0.chunk_height as int);
                &&& !(l0.grid_in_bounds(ccx, ccy) && l0.spec_chunk(ccx, ccy) is Some) ==> {
                    &&& r == Err::<RebuildToken, TileError>(TileError::ChunkNotFound)
                    &&& *final(self) == *old(self)
                }
                &&& (l0.spec_chunk(ccx, ccy) matches Some(c0) ==> (l0.grid_in_bounds(ccx, ccy)
                    ==> {
                    &&& r == Ok::<RebuildToken, TileError>(
                        spec_token_for(
                            layer_id,
                            tx as int,
                            ty as int,
                            l0.chunk_width as int,
                            l0.chunk_height as int,
                        ),
                    )
                    &&& forall|j: int|
                        0 <= j < old(self).layers@.len() && j != li ==> final(self).layers@[j]
                            == old(self).layers@[j]
                    &&& final(self).layers@[li].id == l0.id
                    &&& final(self).layers@[li].built == l0.built
                    &&& final(self).layers@[li].chunks_x == l0.chunks_x
                    &&& final(self).layers@[li].chunks_y == l0.chunks_y
                    &&& final(self).layers@[li].chunk_width == l0.chunk_width
                    &&& final(self).layers@[li].chunk_height == l0.chunk_height
                    &&& final(self).layers@[li].chunks@.len() == l0.chunks@.len()
                    &&& forall|j: int|
                        0 <= j < l0.chunks@.len() && j != l0.grid_index(ccx, ccy)
                            ==> final(self).layers@[li].chunks@[j] == l0.chunks@[j]
                    &&& (final(self).layers@[li].spec_chunk(ccx, ccy) matches Some(c1) && c1.coord
                        == c0.coord && c1.width == c0.width && c1.height == c0.height && c1.dirty
                        && c1.tiles@ == c0.tiles@.update(c0.spec_index(llx, lly), tile))
                }))
            }),
    {
        let li = match self.find_layer(layer_id) {
            None => {
                return Err(TileError::LayerNotFound);
            },
            Some(i) => i,
        };
        if !(tx < self.width && ty < self.height) {
            return Err(TileError::OutOfBounds);
        }
        proof {
            assert((#[trigger] self.layers@[li as int]).wf());
        }
        let cw = self.layers[li].chunk_width;
        let ch = self.layers[li].chunk_height;
        let (cc, lo) = tile_to_chunk(tx, ty, cw, ch);
        proof {
            lemma_div_pos_is_pos(tx as int, cw as int);
            lemma_div_pos_is_pos(ty as int, ch as int);
            lemma_div_nonincreasing(tx as int, cw as int);
            lemma_div_nonincreasing(ty as int, ch as int);
            lemma_mod_division_less_than_divisor(tx as int, cw as int);
            lemma_mod_division_less_than_divisor(ty as int, ch as int);
        }
        let present: bool = match self.layers[li].chunk_at(cc.0, cc.1) {
            Ok(_) => true,
            Err(_) => false,
        };
        if !present {
            return Err(TileError::ChunkNotFound);
        }
        proof {
            let l0 = self.layers@[li as int];
            lemma_grid_index_in_range(l0, cc.0 as int, cc.1 as int);
            assert(l0.chunk_ok(l0.grid_index(cc.0 as int, cc.1 as int)));
        }
        let r = self.layers[li].set_in_chunk(cc.0, cc.1, lo.0, lo.1, tile);
        proof {
            assert forall|a: int|
                0 <= a < self.layers@.len() implies (#[trigger] self.layers@[a]).wf() by {
                if a != li as int {
                    assert(old(self).layers@[a].wf());
                }
            }
            assert forall|a: int, b: int|
                #![trigger self.layers@[a].id, self.layers@[b].id]
                0 <= a < b < self.layers@.len() implies self.layers@[a].id != self.layers@[b].id
                by {
                assert(old(self).layers@[a].id != old(self).layers@[b].id);
            }
        }
        match r {
            Ok(_) => Ok(
                RebuildToken { layer_id, chunk_x: cc.0, chunk_y: cc.1 },
            ),
            Err(_) => {
                // The chunk was looked up and the local offset is a
                // remainder, so the write cannot have failed.
                proof {
                    assert(false);
                }
                Err(TileError::ChunkNotFound)
            },
        }
    }

    /// Reads the tile at world coordinate `(tx, ty)` of the layer carrying
    /// `layer_id`, with the same failures as `set_tile`. Never mutates and
    /// never notifies.
    pub fn get_tile(&self, layer_id: u32, tx: u32, ty: u32) -> (r: Result<Tile, TileError>)
        requires
            self.wf(),
        ensures
            !self.has_layer(layer_id as int) ==> r == Err::<Tile, TileError>(
                TileError::LayerNotFound,
            ),
            self.has_layer(layer_id as int) && !self.in_world(tx as int, ty as int) ==> r == Err::<
                Tile,
                TileError,
            >(TileError::OutOfBounds),
            self.has_layer(layer_id as int) && self.in_world(tx as int, ty as int) ==> ({
                let l0 = self.spec_layer(layer_id as int);
                let ccx = spec_chunk_of(tx as int, l0.chunk_width as int);
                let ccy = spec_chunk_of(ty as int, l0.chunk_height as int);
                let llx = spec_local_of(tx as int, l0.chunk_width as int);
                let lly = spec_local_of(ty as int, l0.chunk_height as int);
                &&& !(l0.grid_in_bounds(ccx, ccy) && l0.spec_chunk(ccx, ccy) is Some) ==> r
                    == Err::<Tile, TileError>(TileError::ChunkNotFound)
                &&& (l0.spec_chunk(ccx, ccy) matches Some(c0) ==> (l0.grid_in_bounds(ccx, ccy)
                    ==> r == Ok::<Tile, TileError>(c0.spec_tile(llx, lly))))
            }),
    {
        let li = match self.find_layer(layer_id) {
            None => {
                return Err(TileError::LayerNotFound);
            },
            Some(i) => i,
        };
        if !(tx < self.width && ty < self.height) {
            return Err(TileError::OutOfBounds);
        }
        proof {
            assert((#[trigger] self.layers@[li as int]).wf());
        }
        let cw = self.layers[li].chunk_width;
        let ch = self.layers[li].chunk_height;
        let (cc, lo) = tile_to_chunk(tx, ty, cw, ch);
        proof {
            lemma_mod_division_less_than_divisor(tx as int, cw as int);
            lemma_mod_division_less_than_divisor(ty as int, ch as int);
        }
        match self.layers[li].chunk_at(cc.0, cc.1) {
            Err(_) => Err(TileError::ChunkNotFound),
            Ok(c) => {
                proof {
                    let l0 = self.layers@[li as int];
                    lemma_grid_index_in_range(l0, cc.0 as int, cc.1 as int);
                    assert(l0.chunk_ok(l0.grid_index(cc.0 as int, cc.1 as int)));
                }
                c.get(lo.0, lo.1)
            },
        }
    }

    /// Clears the dirty flag of one chunk after the render collaborator has
    /// consumed its contents. Fails `LayerNotFound` or `ChunkNotFound`,
    /// changing nothing.
    pub fn acknowledge_chunk(&mut self, layer_id: u32, cx: u32, cy: u32) -> (r: Result<
        (),
        TileError,
    >)
        requires
            old(self).wf(),
        ensures
            final(self).wf(),
            final(self).width == old(self).width,
            final(self).height == old(self).height,
            final(self).layers@.len() == old(self).layers@.len(),
            !old(self).has_layer(layer_id as int) ==> {
                &&& r == Err::<(), TileError>(TileError::LayerNotFound)
                &&& *final(self) == *old(self)
            },
            old(self).has_layer(layer_id as int) ==> ({
                let li = old(self).layer_index(layer_id as int);
                let l0 = old(self).layers@[li];
                &&& !(l0.grid_in_bounds(cx as int, cy as int) && l0.spec_chunk(
                    cx as int,
                    cy as int,
                ) is Some) ==> {
                    &&& r == Err::<(), TileError>(TileError::ChunkNotFound)
                    &&& *final(self) == *old(self)
                }
                &&& (l0.spec_chunk(cx as int, cy as int) matches Some(c0) ==> (l0.grid_in_bounds(
                    cx as int,
                    cy as int,
                ) ==> {
                    &&& r == Ok::<(), TileError>(())
                    &&& forall|j: int|
                        0 <= j < old(self).layers@.len() && j != li ==> final(self).layers@[j]
                            == old(self).layers@[j]
                    &&& forall|j: int|
                        0 <= j < l0.chunks@.len() && j != l0.grid_index(cx as int, cy as int)
                            ==> final(self).layers@[li].chunks@[j] == l0.chunks@[j]
                    &&& final(self).layers@[li].spec_chunk(cx as int, cy as int) matches Some(c1)
                        && !c1.dirty && c1.tiles@ == c0.tiles@ && c1.coord == c0.coord
                    &&& final(self).layers@[li].id == l0.id
                    &&& final(self).layers@[li].chunks_x == l0.chunks_x
                    &&& final(self).layers@[li].chunks_y == l0.chunks_y
                    &&& final(self).layers@[li].chunks@.len() == l0.chunks@.len()
                }))
            }),
    {
        let li = match self.find_layer(layer_id) {
            None => {
                return Err(TileError::LayerNotFound);
            },
            Some(i) => i,
        };
        proof {
            assert((#[trigger] self.layers@[li as int]).wf());
        }
        let present: bool = match self.layers[li].chunk_at(cx, cy) {
            Ok(_) => true,
            Err(_) => false,
        };
        if !present {
            return Err(TileError::ChunkNotFound);
        }
        let r = self.layers[li].acknowledge_chunk(cx, cy);
        proof {
            assert forall|a: int|
                0 <= a < self.layers@.len() implies (#[trigger] self.layers@[a]).wf() by {
                if a != li as int {
                    assert(old(self).layers@[a].wf());
                }
            }
            assert forall|a: int, b: int|
                #![trigger self.layers@[a].id, self.layers@[b].id]
                0 <= a < b < self.layers@.len() implies self.layers@[a].id != self.layers@[b].id
                by {
                assert(old(self).layers@[a].id != old(self).layers@[b].id);
            }
        }
        match r {
            Ok(_) => Ok(()),
            Err(_) => {
                // The chunk was looked up just above, so the acknowledgement
                // cannot have failed.
                proof {
                    assert(false);
                }
                Err(TileError::ChunkNotFound)
            },
        }
    }
}

/// Two tile writes that land in the same chunk of the same layer yield the
/// same rebuild token, and notifying a pending set of both leaves the token
/// in the set exactly once: edits to one chunk within a frame coalesce into
/// a single rebuild.
pub proof fn lemma_same_chunk_coalesces(
    layer_id: u32,
    t1: (u32, u32),
    t2: (u32, u32),
    chunk_w: u32,
    chunk_h: u32,
    pending: Set<RebuildToken>,
)
    requires
        chunk_w >= 1,
        chunk_h >= 1,
        spec_chunk_of(t1.0 as int, chunk_w as int) == spec_chunk_of(t2.0 as int, chunk_w as int),
        spec_chunk_of(t1.1 as int, chunk_h as int) == spec_chunk_of(t2.1 as int, chunk_h as int),
    ensures
        spec_token_for(layer_id, t1.0 as int, t1.1 as int, chunk_w as int, chunk_h as int)
            == spec_token_for(layer_id, t2.0 as int, t2.1 as int, chunk_w as int, chunk_h as int),
        pending.insert(
            spec_token_for(layer_id, t1.0 as int, t1.1 as int, chunk_w as int, chunk_h as int),
        ).insert(
            spec_token_for(layer_id, t2.0 as int, t2.1 as int, chunk_w as int, chunk_h as int),
        ) == pending.insert(
            spec_token_for(layer_id, t1.0 as int, t1.1 as int, chunk_w as int, chunk_h as int),
        ),
{
    let tok = spec_token_for(layer_id, t1.0 as int, t1.1 as int, chunk_w as int, chunk_h as int);
    assert(pending.insert(tok).insert(tok) =~= pending.insert(tok));
}

} // verus!
