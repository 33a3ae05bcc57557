use vstd::prelude::*;
use vstd::arithmetic::div_mod::{
    lemma_div_is_ordered, lemma_div_by_multiple, lemma_basic_div, lemma_div_pos_is_pos,
    lemma_div_plus_one, lemma_div_nonincreasing, lemma_fundamental_div_mod,
    lemma_fundamental_div_mod_converse, lemma_mod_division_less_than_divisor,
};

verus! {

/// Chunk coordinate holding a tile coordinate: floor division by the chunk
/// extent along that axis.
pub open spec fn spec_chunk_of(t: int, s: int) -> int {
    t / s
}

/// Offset of a tile inside its chunk: remainder by the chunk extent.
pub open spec fn spec_local_of(t: int, s: int) -> int {
    t % s
}

/// Number of chunks needed to cover `extent` tiles: ceiling division.
pub open spec fn spec_chunk_count(extent: int, s: int) -> int {
    (extent + s - 1) / s
}

/// World-space coordinate of the map's left/bottom edge, chosen so that the
/// map is centered on the world origin: `-(extent * tile_size) / 2`.
pub open spec fn spec_origin(extent: int, tile_size: int) -> int {
    -((extent * tile_size) / 2)
}

/// World-space coordinate of a tile: `origin + tile_coord * tile_size`.
pub open spec fn spec_tile_to_world(t: int, extent: int, tile_size: int) -> int {
    spec_origin(extent, tile_size) + t * tile_size
}

/// Tile coordinate under a world-space position: floor of the offset from
/// the origin, in units of one tile.
pub open spec fn spec_world_to_tile(pos: int, extent: int, tile_size: int) -> int {
    (pos - spec_origin(extent, tile_size)) / tile_size
}

/// Splits a tile coordinate into its chunk coordinate and the offset inside
/// that chunk. Total: defined for every tile coordinate, whether or not it
/// lies inside any particular world.
pub fn tile_to_chunk(tx: u32, ty: u32, chunk_w: u32, chunk_h: u32) -> (r: ((u32, u32), (u32, u32)))
    requires
        chunk_w >= 1,
        chunk_h >= 1,
    ensures
        r.0.0 == spec_chunk_of(tx as int, chunk_w as int),
        r.0.1 == spec_chunk_of(ty as int, chunk_h as int),
        r.1.0 == spec_local_of(tx as int, chunk_w as int),
        r.1.1 == spec_local_of(ty as int, chunk_h as int),
        r.1.0 < chunk_w,
        r.1.1 < chunk_h,
{
    ((tx / chunk_w, ty / chunk_h), (tx % chunk_w, ty % chunk_h))
}

/// Recombines a chunk coordinate and a local offset into the tile coordinate
/// they came from.
pub fn tile_from_chunk(chunk: (u32, u32), local: (u32, u32), chunk_w: u32, chunk_h: u32) -> (r: (
    u32,
    u32,
))
    requires
        chunk.0 as int * chunk_w as int + local.0 as int <= u32::MAX as int,
        chunk.1 as int * chunk_h as int + local.1 as int <= u32::MAX as int,
    ensures
        r.0 == chunk.0 as int * chunk_w as int + local.0 as int,
        r.1 == chunk.1 as int * chunk_h as int + local.1 as int,
{
    let x: u64 = chunk.0 as u64 * chunk_w as u64 + local.0 as u64;
    let y: u64 = chunk.1 as u64 * chunk_h as u64 + local.1 as u64;
    (x as u32, y as u32)
}

/// Round trip: splitting any tile coordinate with `tile_to_chunk` and
/// recombining chunk coordinate and local offset yields the original
/// coordinate, and the local offset always lies inside the chunk.
pub proof fn lemma_tile_chunk_roundtrip(tx: u32, ty: u32, chunk_w: u32, chunk_h: u32)
    requires
        chunk_w >= 1,
        chunk_h >= 1,
    ensures
        spec_chunk_of(tx as int, chunk_w as int) * chunk_w as int
            + spec_local_of(tx as int, chunk_w as int) == tx as int,
        spec_chunk_of(ty as int, chunk_h as int) * chunk_h as int
            + spec_local_of(ty as int, chunk_h as int) == ty as int,
        0 <= spec_local_of(tx as int, chunk_w as int) < chunk_w as int,
        0 <= spec_local_of(ty as int, chunk_h as int) < chunk_h as int,
        0 <= spec_chunk_of(tx as int, chunk_w as int),
        0 <= spec_chunk_of(ty as int, chunk_h as int),
{
    lemma_fundamental_div_mod(tx as int, chunk_w as int);
    lemma_fundamental_div_mod(ty as int, chunk_h as int);
    vstd::arithmetic::mul::lemma_mul_is_commutative(tx as int / chunk_w as int, chunk_w as int);
    vstd::arithmetic::mul::lemma_mul_is_commutative(ty as int / chunk_h as int, chunk_h as int);
    lemma_mod_division_less_than_divisor(tx as int, chunk_w as int);
    lemma_mod_division_less_than_divisor(ty as int, chunk_h as int);
    lemma_div_pos_is_pos(tx as int, chunk_w as int);
    lemma_div_pos_is_pos(ty as int, chunk_h as int);
}

/// A tile coordinate inside the world maps to a chunk coordinate inside the
/// chunk grid that `chunk_count` sizes.
pub proof fn lemma_chunk_of_in_grid(t: u32, extent: u32, s: u32)
    requires
        s >= 1,
        t < extent,
    ensures
        0 <= spec_chunk_of(t as int, s as int) < spec_chunk_count(extent as int, s as int),
{
    lemma_div_pos_is_pos(t as int, s as int);
    lemma_div_is_ordered(t as int, extent as int - 1, s as int);
    lemma_div_plus_one(extent as int - 1, s as int);
}

/// Number of chunks covering `extent` tiles along one axis.
pub fn chunk_count(extent: u32, s: u32) -> (r: u32)
    requires
        s >= 1,
    ensures
        r == spec_chunk_count(extent as int, s as int),
        r <= extent,
{
    let wide: u64 = (extent as u64 + s as u64 - 1) / (s as u64);
    proof {
        if extent == 0 {
            lemma_basic_div(s as int - 1, s as int);
        } else {
            assert(extent as int + s as int - 1 <= extent as int * s as int) by (nonlinear_arith)
                requires
                    extent >= 1,
                    s >= 1,
            ;
            lemma_div_is_ordered(
                extent as int + s as int - 1,
                extent as int * s as int,
                s as int,
            );
            lemma_div_by_multiple(extent as int, s as int);
        }
    }
    wide as u32
}

/// World-space origin of the map along one axis.
pub fn world_origin(extent: u32, tile_size: i64) -> (r: i64)
    requires
        tile_size >= 1,
        extent as int * tile_size as int <= i64::MAX as int,
    ensures
        r == spec_origin(extent as int, tile_size as int),
{
    proof {
        assert(extent as int * tile_size as int >= 0) by (nonlinear_arith)
            requires
                extent >= 0,
                tile_size >= 1,
        ;
    }
    let prod: i64 = extent as i64 * tile_size;
    let half: u64 = (prod as u64) / 2;
    proof {
        lemma_div_pos_is_pos(prod as int, 2);
        lemma_div_nonincreasing(prod as int, 2);
    }
    0i64 - (half as i64)
}

/// World-space position of a tile's center along one axis.
pub fn tile_to_world_axis(t: u32, extent: u32, tile_size: i64) -> (r: i64)
    requires
        tile_size >= 1,
        t <= extent,
        extent as int * tile_size as int <= i64::MAX as int,
    ensures
        r == spec_tile_to_world(t as int, extent as int, tile_size as int),
{
    proof {
        assert(t as int * tile_size as int <= extent as int * tile_size as int
            && t as int * tile_size as int >= 0) by (nonlinear_arith)
            requires
                0 <= t <= extent,
                tile_size >= 1,
        ;
        assert(extent as int * tile_size as int >= 0) by (nonlinear_arith)
            requires
                extent >= 0,
                tile_size >= 1,
        ;
        lemma_div_pos_is_pos(extent as int * tile_size as int, 2);
        lemma_div_nonincreasing(extent as int * tile_size as int, 2);
    }
    let org: i64 = world_origin(extent, tile_size);
    let rel: i64 = t as i64 * tile_size;
    org + rel
}

/// World-space position of a tile's center on both axes.
pub fn tile_to_world(t: (u32, u32), extent: (u32, u32), tile_size: (i64, i64)) -> (r: (i64, i64))
    requires
        tile_size.0 >= 1,
        tile_size.1 >= 1,
        t.0 <= extent.0,
        t.1 <= extent.1,
        extent.0 as int * tile_size.0 as int <= i64::MAX as int,
        extent.1 as int * tile_size.1 as int <= i64::MAX as int,
    ensures
        r.0 == spec_tile_to_world(t.0 as int, extent.0 as int, tile_size.0 as int),
        r.1 == spec_tile_to_world(t.1 as int, extent.1 as int, tile_size.1 as int),
{
    (
        tile_to_world_axis(t.0, extent.0, tile_size.0),
        tile_to_world_axis(t.1, extent.1, tile_size.1),
    )
}

/// Tile coordinate under a world-space position along one axis: floor
/// division, so positions left of the origin give negative coordinates.
pub fn world_to_tile_axis(pos: i64, extent: u32, tile_size: i64) -> (r: i64)
    requires
        tile_size >= 1,
        extent as int * tile_size as int <= i64::MAX as int,
        -(i64::MAX as int) <= pos as int - spec_origin(extent as int, tile_size as int)
            <= i64::MAX as int,
    ensures
        r == spec_world_to_tile(pos as int, extent as int, tile_size as int),
{
    proof {
        assert(extent as int * tile_size as int >= 0) by (nonlinear_arith)
            requires
                extent >= 0,
                tile_size >= 1,
        ;
    }
    let org: i64 = world_origin(extent, tile_size);
    let rel: i64 = pos - org;
    if rel >= 0 {
        let q: u64 = (rel as u64) / (tile_size as u64);
        proof {
            lemma_div_pos_is_pos(rel as int, tile_size as int);
            lemma_div_nonincreasing(rel as int, tile_size as int);
        }
        q as i64
    } else {
        let n: u64 = (0i64 - (rel + 1)) as u64 + 1;
        let q: u64 = (n + tile_size as u64 - 1) / (tile_size as u64);
        proof {
            let ni = n as int;
            let d = tile_size as int;
            let qi = (ni + d - 1) / d;
            lemma_div_pos_is_pos(ni + d - 1, d);
            lemma_div_nonincreasing(ni + d - 1, d);
            lemma_fundamental_div_mod(ni + d - 1, d);
            lemma_mod_division_less_than_divisor(ni + d - 1, d);
            let m = (ni + d - 1) % d;
            assert(d * qi == ni + d - 1 - m);
            let rm = d * qi - ni;
            assert(0 <= rm < d);
            assert(rel as int == (-qi) * d + rm) by (nonlinear_arith)
                requires
                    rel as int == -ni,
                    rm == d * qi - ni,
            ;
            lemma_fundamental_div_mod_converse(rel as int, d, -qi, rm);
            assert(ni + d - 1 <= ni * d) by (nonlinear_arith)
                requires
                    ni >= 1,
                    d >= 1,
            ;
            lemma_div_is_ordered(ni + d - 1, ni * d, d);
            lemma_div_by_multiple(ni, d);
            assert(qi <= ni);
        }
        0i64 - (q as i64)
    }
}

/// Tile coordinate under a world-space position on both axes.
pub fn world_to_tile(pos: (i64, i64), extent: (u32, u32), tile_size: (i64, i64)) -> (r: (
    i64,
    i64,
))
    requires
        tile_size.0 >= 1,
        tile_size.1 >= 1,
        extent.0 as int * tile_size.0 as int <= i64::MAX as int,
        extent.1 as int * tile_size.1 as int <= i64::MAX as int,
        -(i64::MAX as int) <= pos.0 as int - spec_origin(extent.0 as int, tile_size.0 as int)
            <= i64::MAX as int,
        -(i64::MAX as int) <= pos.1 as int - spec_origin(extent.1 as int, tile_size.1 as int)
            <= i64::MAX as int,
    ensures
        r.0 == spec_world_to_tile(pos.0 as int, extent.0 as int, tile_size.0 as int),
        r.1 == spec_world_to_tile(pos.1 as int, extent.1 as int, tile_size.1 as int),
{
    (
        world_to_tile_axis(pos.0, extent.0, tile_size.0),
        world_to_tile_axis(pos.1, extent.1, tile_size.1),
    )
}

} // verus!
