use vstd::prelude::*;

verus! {

/// Pan/zoom state of the camera, independent of the tile world.
///
/// All values are fixed-point world units with three decimal places
/// (milli-units), so the arithmetic is exact and free of rounding surprises:
/// a stored `1000` stands for `1.0`.
pub struct CameraController {
    pub pos_x: i64,
    pub pos_y: i64,
    pub zoom: i64,
    pub min_zoom: i64,
    pub max_zoom: i64,
    pub zoom_speed: i64,
}

/// A zoom delta scaled by the zoom speed, truncated toward zero: the
/// fixed-point value of `delta * zoom_speed`.
pub open spec fn spec_scaled_delta(delta: int, speed: int) -> int {
    if delta >= 0 {
        (delta * speed) / 1000
    } else {
        -(((-delta) * speed) / 1000)
    }
}

/// `raw` clamped into `[min, max]`.
pub open spec fn spec_clamped(raw: int, min: int, max: int) -> int {
    if raw < min {
        min
    } else if raw > max {
        max
    } else {
        raw
    }
}

/// The zoom value after one `zoom(delta)` call on camera state `c`.
pub open spec fn spec_zoom_step(c: CameraController, delta: int) -> int {
    spec_clamped(
        c.zoom + spec_scaled_delta(delta, c.zoom_speed as int),
        c.min_zoom as int,
        c.max_zoom as int,
    )
}

/// Camera state `c` after one `zoom(delta)` call: only the zoom changes.
pub open spec fn spec_with_zoom(c: CameraController, delta: int) -> CameraController {
    CameraController { zoom: spec_zoom_step(c, delta) as i64, ..c }
}

/// Camera state `c` after a whole sequence of `zoom` calls, first delta
/// first.
pub open spec fn spec_apply_zooms(c: CameraController, deltas: Seq<int>) -> CameraController
    decreases deltas.len(),
{
    if deltas.len() == 0 {
        c
    } else {
        spec_apply_zooms(spec_with_zoom(c, deltas[0]), deltas.drop_first())
    }
}

impl CameraController {
    /// The zoom bounds are ordered, at least one milli-unit (so `1/zoom` is
    /// defined), the zoom lies between them, and the speed is nonnegative.
    pub open spec fn wf(self) -> bool {
        &&& 1 <= self.min_zoom
        &&& self.min_zoom <= self.zoom
        &&& self.zoom <= self.max_zoom
        &&& 0 <= self.zoom_speed
    }

    /// A camera at the world origin whose starting zoom is `initial_zoom`
    /// clamped into the configured bounds.
    pub fn new(min_zoom: i64, max_zoom: i64, zoom_speed: i64, initial_zoom: i64) -> (c:
        CameraController)
        requires
            1 <= min_zoom <= max_zoom,
            0 <= zoom_speed,
        ensures
            c.wf(),
            c.pos_x == 0 && c.pos_y == 0,
            c.min_zoom == min_zoom,
            c.max_zoom == max_zoom,
            c.zoom_speed == zoom_speed,
            c.zoom == spec_clamped(initial_zoom as int, min_zoom as int, max_zoom as int),
    {
        let z: i64 = if initial_zoom < min_zoom {
            min_zoom
        } else if initial_zoom > max_zoom {
            max_zoom
        } else {
            initial_zoom
        };
        CameraController { pos_x: 0, pos_y: 0, zoom: z, min_zoom, max_zoom, zoom_speed }
    }

    /// Moves the camera by `delta`, unconditionally: panning is not clamped
    /// to the map extent.
    pub fn pan(&mut self, dx: i64, dy: i64)
        requires
            old(self).wf(),
            i64::MIN as int <= old(self).pos_x as int + dx as int <= i64::MAX as int,
            i64::MIN as int <= old(self).pos_y as int + dy as int <= i64::MAX as int,
        ensures
            final(self).wf(),
            final(self).pos_x == old(self).pos_x as int + dx as int,
            final(self).pos_y == old(self).pos_y as int + dy as int,
            final(self).zoom == old(self).zoom,
            final(self).min_zoom == old(self).min_zoom,
            final(self).max_zoom == old(self).max_zoom,
            final(self).zoom_speed == old(self).zoom_speed,
    {
        self.pos_x = self.pos_x + dx;
        self.pos_y = self.pos_y + dy;
    }

    /// Changes the zoom by `delta * zoom_speed` and clamps the result into
    /// `[min_zoom, max_zoom]`; clamping is the only failure avoidance, there
    /// is no error path.
    pub fn zoom(&mut self, delta: i64)
        requires
            old(self).wf(),
        ensures
            final(self).wf(),
            *final(self) == spec_with_zoom(*old(self), delta as int),
            final(self).zoom == spec_zoom_step(*old(self), delta as int),
            old(self).min_zoom <= final(self).zoom <= old(self).max_zoom,
            final(self).pos_x == old(self).pos_x,
            final(self).pos_y == old(self).pos_y,
            final(self).min_zoom == old(self).min_zoom,
            final(self).max_zoom == old(self).max_zoom,
            final(self).zoom_speed == old(self).zoom_speed,
    {
        let mag: u64 = if delta >= 0 {
            delta as u64
        } else {
            (0i64 - (delta + 1)) as u64 + 1
        };
        proof {
            let sp = self.zoom_speed as int;
            assert(mag as int * sp <= u128::MAX as int) by (nonlinear_arith)
                requires
                    0 <= mag as int <= u64::MAX as int,
                    0 <= sp <= i64::MAX as int,
            ;
        }
        let step: u128 = (mag as u128) * (self.zoom_speed as u128) / 1000;
        let nz: i64 = if delta >= 0 {
            let raw: u128 = (self.zoom as u128) + step;
            if raw > self.max_zoom as u128 {
                self.max_zoom
            } else if raw < self.min_zoom as u128 {
                self.min_zoom
            } else {
                raw as i64
            }
        } else {
            let zcur: u128 = self.zoom as u128;
            if step >= zcur {
                self.min_zoom
            } else {
                let r: u128 = zcur - step;
                if r < self.min_zoom as u128 {
                    self.min_zoom
                } else if r > self.max_zoom as u128 {
                    self.max_zoom
                } else {
                    r as i64
                }
            }
        };
        self.zoom = nz;
    }

    /// The factor mapping world units to screen units: the fixed-point value
    /// of `1 / zoom` (truncated to milli-units).
    pub fn projection_scale(&self) -> (r: i64)
        requires
            self.wf(),
        ensures
            r == 1_000_000 as int / self.zoom as int,
    {
        (1_000_000u64 / (self.zoom as u64)) as i64
    }
}

/// After any sequence of `zoom` calls the zoom still lies between the
/// configured bounds, and the bounds themselves never move.
pub proof fn lemma_zoom_sequence_bounded(c: CameraController, deltas: Seq<int>)
    requires
        c.wf(),
    ensures
        spec_apply_zooms(c, deltas).wf(),
        c.min_zoom <= spec_apply_zooms(c, deltas).zoom <= c.max_zoom,
        spec_apply_zooms(c, deltas).min_zoom == c.min_zoom,
        spec_apply_zooms(c, deltas).max_zoom == c.max_zoom,
    decreases deltas.len(),
{
    if deltas.len() == 0 {
    } else {
        let c1 = spec_with_zoom(c, deltas[0]);
        assert(c.min_zoom <= spec_zoom_step(c, deltas[0]) <= c.max_zoom);
        assert(c1.wf());
        lemma_zoom_sequence_bounded(c1, deltas.drop_first());
    }
}

} // verus!
