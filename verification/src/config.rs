use vstd::prelude::*;
use crate::errors::TileError;

verus! {

/// The startup configuration handed in by the loader. Fractional settings
/// (tile scale and the camera zoom values) are fixed-point milli-units: a
/// stored `1000` stands for `1.0`.
#[derive(Clone, Copy, Debug, PartialEq, Eq, Structural)]
pub struct Config {
    pub map_width: u32,
    pub map_height: u32,
    pub tile_scale: i64,
    pub camera_zoom_speed: i64,
    pub camera_max_zoom: i64,
    pub camera_min_zoom: i64,
}

impl Config {
    /// What a usable configuration satisfies: a positive tile scale, zoom
    /// bounds of at least one milli-unit in order, a nonnegative zoom speed,
    /// and extents small enough that the chunk grid and the world-space
    /// positions stay representable.
    pub open spec fn valid(self) -> bool {
        &&& self.tile_scale >= 1
        &&& 1 <= self.camera_min_zoom <= self.camera_max_zoom
        &&& self.camera_zoom_speed >= 0
        &&& self.map_width as int * self.map_height as int <= usize::MAX as int
        &&& self.map_width as int * self.tile_scale as int <= i64::MAX as int
        &&& self.map_height as int * self.tile_scale as int <= i64::MAX as int
    }

    /// Checks the configuration before any core object is built: succeeds
    /// exactly on valid configurations and fails `ConfigParseError` on every
    /// other, which is fatal to startup.
    pub fn validate(&self) -> (r: Result<(), TileError>)
        ensures
            self.valid() ==> r == Ok::<(), TileError>(()),
            !self.valid() ==> r == Err::<(), TileError>(TileError::ConfigParseError),
    {
        if self.tile_scale < 1 {
            return Err(TileError::ConfigParseError);
        }
        if self.camera_min_zoom < 1 || self.camera_min_zoom > self.camera_max_zoom {
            return Err(TileError::ConfigParseError);
        }
        if self.camera_zoom_speed < 0 {
            return Err(TileError::ConfigParseError);
        }
        proof {
            let mw = self.map_width as int;
            let mh = self.map_height as int;
            let ts = self.tile_scale as int;
            assert(mw * mh <= u128::MAX as int && mw * ts <= u128::MAX as int && mh * ts
                <= u128::MAX as int) by (nonlinear_arith)
                requires
                    0 <= mw <= u32::MAX as int,
                    0 <= mh <= u32::MAX as int,
                    0 <= ts <= i64::MAX as int,
            ;
        }
        if (self.map_width as u128) * (self.map_height as u128) > (usize::MAX as u128) {
            return Err(TileError::ConfigParseError);
        }
        if (self.map_width as u128) * (self.tile_scale as u128) > (i64::MAX as u128) {
            return Err(TileError::ConfigParseError);
        }
        if (self.map_height as u128) * (self.tile_scale as u128) > (i64::MAX as u128) {
            return Err(TileError::ConfigParseError);
        }
        Ok(())
    }
}

} // verus!
