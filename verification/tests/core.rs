use tileworld::camera::CameraController;
use tileworld::chunk::Chunk;
use tileworld::config::Config;
use tileworld::coords::{chunk_count, tile_from_chunk, tile_to_chunk, tile_to_world, world_origin,
    world_to_tile};
use tileworld::errors::TileError;
use tileworld::layer::Layer;
use tileworld::notifier::{MutationNotifier, RebuildToken};
use tileworld::tile::Tile;
use tileworld::world::TileWorld;

fn demo_layer(id: u32) -> Layer {
    // World of 10x10 tiles split into 4x4 chunks of 1.0x1.0 world units.
    Layer::new(id, 10, 10, 4, 4, 1000, 1000)
}

fn demo_world() -> TileWorld {
    let mut w = TileWorld::new(10, 10);
    let mut layer = demo_layer(0);
    layer.build().unwrap();
    w.add_layer(0, layer).unwrap();
    w
}

#[test]
fn chunk_count_is_ceiling() {
    // A 10x10 map with 4x4 chunks needs 3x3 = 9 chunks.
    assert_eq!(chunk_count(10, 4), 3);
    assert_eq!(chunk_count(10, 4) * chunk_count(10, 4), 9);
    assert_eq!(chunk_count(8, 4), 2);
    assert_eq!(chunk_count(9, 4), 3);
    assert_eq!(chunk_count(0, 4), 0);
    assert_eq!(chunk_count(1, 16), 1);
}

#[test]
fn layer_grid_matches_chunk_count() {
    let layer = demo_layer(0);
    assert_eq!(layer.chunks_x, 3);
    assert_eq!(layer.chunks_y, 3);
    assert_eq!(layer.chunks.len(), 9);
}

#[test]
fn tile_chunk_roundtrip_concrete() {
    let (chunk, local) = tile_to_chunk(2, 5, 4, 4);
    assert_eq!(chunk, (0, 1));
    assert_eq!(local, (2, 1));
    assert_eq!(tile_from_chunk(chunk, local, 4, 4), (2, 5));

    let (chunk, local) = tile_to_chunk(9, 9, 4, 4);
    assert_eq!(chunk, (2, 2));
    assert_eq!(local, (1, 1));
    assert_eq!(tile_from_chunk(chunk, local, 4, 4), (9, 9));

    let (chunk, local) = tile_to_chunk(0, 0, 16, 16);
    assert_eq!(chunk, (0, 0));
    assert_eq!(local, (0, 0));
    assert_eq!(tile_from_chunk(chunk, local, 16, 16), (0, 0));
}

#[test]
fn world_mapping_is_centered() {
    // Ten tiles of one world unit each: the origin sits at -5.0.
    assert_eq!(world_origin(10, 1000), -5000);
    assert_eq!(tile_to_world((0, 0), (10, 10), (1000, 1000)), (-5000, -5000));
    assert_eq!(tile_to_world((2, 5), (10, 10), (1000, 1000)), (-3000, 0));
    assert_eq!(world_to_tile((-3000, 0), (10, 10), (1000, 1000)), (2, 5));
    assert_eq!(world_to_tile((-2001, 999), (10, 10), (1000, 1000)), (2, 5));
    // Positions left of the origin floor to negative tile coordinates.
    assert_eq!(world_to_tile((-5001, -5001), (10, 10), (1000, 1000)), (-1, -1));
}

#[test]
fn zoom_scenario_clamps_at_max() {
    // speed 0.1, bounds [0.5, 5.0], start 1.0; zoom(60.0) gives a raw
    // 1.0 + 6.0 = 7.0, clamped to 5.0.
    let mut cam = CameraController::new(500, 5000, 100, 1000);
    assert_eq!(cam.zoom, 1000);
    cam.zoom(60000);
    assert_eq!(cam.zoom, 5000);
}

#[test]
fn zoom_stays_within_bounds() {
    let mut cam = CameraController::new(500, 5000, 100, 1000);
    let deltas: Vec<i64> = vec![60000, -90000, 12345, -1, 0, 7, -7000000, 7000000];
    for d in deltas {
        cam.zoom(d);
        assert!(cam.min_zoom <= cam.zoom && cam.zoom <= cam.max_zoom);
    }
    // Zooming out far below the minimum clamps at the minimum.
    cam.zoom(-7000000);
    assert_eq!(cam.zoom, 500);
}

#[test]
fn zoom_truncates_toward_zero() {
    // delta 0.015 at speed 0.1 scales to 0.0015, truncated to 0.001.
    let mut cam = CameraController::new(500, 5000, 100, 1000);
    cam.zoom(15);
    assert_eq!(cam.zoom, 1001);
    // The same step down again truncates the magnitude the same way.
    cam.zoom(-15);
    assert_eq!(cam.zoom, 1000);
}

#[test]
fn pan_is_unclamped() {
    let mut cam = CameraController::new(500, 5000, 100, 1000);
    cam.pan(1500, -300);
    cam.pan(-4000, 100);
    assert_eq!((cam.pos_x, cam.pos_y), (-2500, -200));
    assert_eq!(cam.zoom, 1000);
}

#[test]
fn projection_scale_is_inverse_zoom() {
    let mut cam = CameraController::new(500, 5000, 100, 1000);
    assert_eq!(cam.projection_scale(), 1000);
    cam.zoom(60000);
    assert_eq!(cam.projection_scale(), 200);
}

#[test]
fn set_tile_resolves_chunk_and_local() {
    // Scenario: world 10x10, chunks 4x4; writing (2, 5) lands in chunk
    // (0, 1) at local offset (2, 1).
    let mut w = demo_world();
    let tile = Tile::new(2, 0);
    let token = w.set_tile(0, 2, 5, tile).unwrap();
    assert_eq!(token, RebuildToken { layer_id: 0, chunk_x: 0, chunk_y: 1 });
    assert_eq!(w.get_tile(0, 2, 5).unwrap(), tile);

    let layer = w.layer_at(0).unwrap();
    let chunk = layer.chunk_at(0, 1).unwrap();
    assert!(chunk.dirty);
    assert_eq!(chunk.get(2, 1).unwrap(), tile);
    // Neighbouring cells keep the default tile.
    assert_eq!(chunk.get(3, 1).unwrap(), Tile::default());
}

#[test]
fn set_tile_out_of_bounds_changes_nothing() {
    // Scenario: writing (20, 5) in a 10x10 world fails and no chunk is
    // mutated.
    let mut w = demo_world();
    let r = w.set_tile(0, 20, 5, Tile::new(7, 0));
    assert_eq!(r, Err(TileError::OutOfBounds));
    for ty in 0..10u32 {
        for tx in 0..10u32 {
            assert_eq!(w.get_tile(0, tx, ty).unwrap(), Tile::default());
        }
    }
    let layer = w.layer_at(0).unwrap();
    for cy in 0..3u32 {
        for cx in 0..3u32 {
            // Freshly built chunks are dirty, but none was written.
            assert!(layer.chunk_at(cx, cy).is_ok());
        }
    }
}

#[test]
fn same_chunk_edits_coalesce_to_one_token() {
    // Two writes into the same 4x4 chunk within one frame leave exactly one
    // pending token after the drain.
    let mut w = demo_world();
    let mut notifier = MutationNotifier::new();
    let t1 = w.set_tile(0, 1, 1, Tile::new(2, 0)).unwrap();
    let t2 = w.set_tile(0, 2, 3, Tile::new(3, 0)).unwrap();
    assert_eq!(t1, t2);
    notifier.notify(t1);
    notifier.notify(t2);
    let drained = notifier.drain();
    assert_eq!(drained.len(), 1);
    assert_eq!(drained[0], t1);
    // The next frame starts empty.
    assert_eq!(notifier.drain().len(), 0);
}

#[test]
fn different_chunks_keep_their_own_tokens() {
    let mut w = demo_world();
    let mut notifier = MutationNotifier::new();
    let t1 = w.set_tile(0, 0, 0, Tile::new(1, 0)).unwrap();
    let t2 = w.set_tile(0, 9, 9, Tile::new(1, 0)).unwrap();
    notifier.notify(t1);
    notifier.notify(t2);
    notifier.notify(t1);
    let drained = notifier.drain();
    assert_eq!(drained, vec![t1, t2]);
}

#[test]
fn build_twice_fails_and_keeps_chunks() {
    let mut layer = demo_layer(0);
    assert_eq!(layer.build(), Ok(()));
    assert!(layer.built);
    // Mark one cell, then try to build again.
    assert_eq!(layer.set_in_chunk(0, 0, 1, 2, Tile::new(9, 1)), Ok(()));
    assert_eq!(layer.build(), Err(TileError::AlreadyBuilt));
    assert_eq!(layer.chunks.len(), 9);
    let chunk = layer.chunk_at(0, 0).unwrap();
    assert_eq!(chunk.get(1, 2).unwrap(), Tile::new(9, 1));
}

#[test]
fn add_chunk_after_build_is_refused() {
    let mut layer = demo_layer(0);
    layer.build().unwrap();
    assert_eq!(layer.add_chunk(0, 0), Err(TileError::StructuralEditAfterBuild));
}

#[test]
fn add_chunk_before_build_keeps_contents() {
    let mut layer = demo_layer(0);
    assert_eq!(layer.add_chunk(1, 1), Ok(()));
    assert_eq!(layer.set_in_chunk(1, 1, 0, 0, Tile::new(5, 0)), Ok(()));
    // Adding the same chunk again changes nothing.
    assert_eq!(layer.add_chunk(1, 1), Ok(()));
    layer.build().unwrap();
    let chunk = layer.chunk_at(1, 1).unwrap();
    assert_eq!(chunk.get(0, 0).unwrap(), Tile::new(5, 0));
}

#[test]
fn add_chunk_outside_grid_is_out_of_bounds() {
    let mut layer = demo_layer(0);
    assert_eq!(layer.add_chunk(3, 0), Err(TileError::OutOfBounds));
}

#[test]
fn unbuilt_layer_has_no_chunks() {
    let mut w = TileWorld::new(10, 10);
    w.add_layer(0, demo_layer(0)).unwrap();
    assert_eq!(w.set_tile(0, 2, 5, Tile::new(2, 0)), Err(TileError::ChunkNotFound));
    assert_eq!(w.get_tile(0, 2, 5), Err(TileError::ChunkNotFound));
}

#[test]
fn unknown_layer_is_reported() {
    let mut w = demo_world();
    assert_eq!(w.set_tile(3, 1, 1, Tile::new(1, 0)), Err(TileError::LayerNotFound));
    assert_eq!(w.get_tile(3, 1, 1), Err(TileError::LayerNotFound));
    assert!(matches!(w.layer_at(3), Err(TileError::LayerNotFound)));
}

#[test]
fn duplicate_layer_is_refused() {
    let mut w = TileWorld::new(10, 10);
    assert_eq!(w.add_layer(0, demo_layer(0)), Ok(()));
    assert_eq!(w.add_layer(0, demo_layer(0)), Err(TileError::DuplicateLayer));
    // A different id is fine and keeps the z-order.
    assert_eq!(w.add_layer(1, demo_layer(1)), Ok(()));
    assert_eq!(w.layers.len(), 2);
    assert_eq!(w.layers[0].id, 0);
    assert_eq!(w.layers[1].id, 1);
}

#[test]
fn chunk_local_access_is_bounded() {
    let mut chunk = Chunk::new((0, 0), 4, 4, Tile::default());
    assert_eq!(chunk.set(4, 0, Tile::new(1, 0)), Err(TileError::OutOfBounds));
    assert_eq!(chunk.get(0, 4), Err(TileError::OutOfBounds));
    assert_eq!(chunk.set(3, 3, Tile::new(1, 0)), Ok(()));
    assert_eq!(chunk.get(3, 3), Ok(Tile::new(1, 0)));
}

#[test]
fn fill_all_overwrites_and_marks_dirty() {
    let mut chunk = Chunk::new((0, 0), 4, 4, Tile::default());
    chunk.acknowledge_rebuild();
    assert!(!chunk.dirty);
    chunk.fill_all(Tile::new(6, 2));
    assert!(chunk.dirty);
    for ly in 0..4u32 {
        for lx in 0..4u32 {
            assert_eq!(chunk.get(lx, ly).unwrap(), Tile::new(6, 2));
        }
    }
}

#[test]
fn acknowledge_clears_dirty_only() {
    let mut w = demo_world();
    let token = w.set_tile(0, 2, 5, Tile::new(2, 0)).unwrap();
    assert_eq!(w.acknowledge_chunk(token.layer_id, token.chunk_x, token.chunk_y), Ok(()));
    let layer = w.layer_at(0).unwrap();
    let chunk = layer.chunk_at(0, 1).unwrap();
    assert!(!chunk.dirty);
    assert_eq!(chunk.get(2, 1).unwrap(), Tile::new(2, 0));
    assert_eq!(
        w.acknowledge_chunk(9, 0, 0),
        Err(TileError::LayerNotFound)
    );
    assert_eq!(
        w.acknowledge_chunk(0, 5, 5),
        Err(TileError::ChunkNotFound)
    );
}

#[test]
fn config_validation() {
    let good = Config {
        map_width: 10,
        map_height: 10,
        tile_scale: 1000,
        camera_zoom_speed: 100,
        camera_max_zoom: 5000,
        camera_min_zoom: 500,
    };
    assert_eq!(good.validate(), Ok(()));

    let zero_scale = Config { tile_scale: 0, ..good };
    assert_eq!(zero_scale.validate(), Err(TileError::ConfigParseError));

    let inverted_zoom = Config { camera_min_zoom: 6000, ..good };
    assert_eq!(inverted_zoom.validate(), Err(TileError::ConfigParseError));

    let negative_speed = Config { camera_zoom_speed: -1, ..good };
    assert_eq!(negative_speed.validate(), Err(TileError::ConfigParseError));

    // The world-space extent must stay representable in milli-units.
    let huge = Config { map_width: u32::MAX, tile_scale: i64::MAX, ..good };
    assert_eq!(huge.validate(), Err(TileError::ConfigParseError));
}
