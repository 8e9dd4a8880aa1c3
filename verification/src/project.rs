//! The column projector.
//!
//! For a field of view and an output width in columns, each column gets one
//! ray: its angle is a linear sweep across the field of view centered on the
//! facing direction. The cast distance is multiplied by the cosine of the
//! per-column offset angle (fisheye correction), and the corrected distance
//! is turned into a vertical slice height with a centered margin. Columns are
//! independent: the whole pass reads the world and writes nothing.

use vstd::prelude::*;

use crate::fixed::fx_mul;
use crate::fixed::quot_trunc;
use crate::fixed::FX_ONE;
use crate::fixed::FX_TWO_PI;
use crate::trig::cos_fixed;
use crate::trig::cos_fixed_spec;
use crate::world::cast_spec;
use crate::world::World;
use crate::world::FX_MAX_COORD;

verus! {

/// One vertical slice of the rendered output: its height in pixels and the
/// empty margin above (and below) it.
#[derive(Clone, Copy, Debug, PartialEq, Eq, Structural)]
pub struct Column {
    /// Height of the drawn slice, at most the screen height.
    pub slice_height: usize,
    /// Rows left empty above the slice; the slice is centered vertically.
    pub margin: usize,
}

/// Offset of column `i` of `n` from the view center: `fov * (i/n - 1/2)` in
/// fixed point, evaluated as one truncated division.
pub open spec fn offset_angle_spec(fov: int, i: int, n: int) -> int {
    quot_trunc(fov * (2 * i - n), 2 * n)
}

/// Distance for column `i` after fisheye correction: the cast distance along
/// the offset ray, shortened by the cosine of the offset angle.
pub open spec fn corrected_dist_spec(w: World, fov: int, n: int, i: int) -> int {
    let off = offset_angle_spec(fov, i, n);
    let d = cast_spec(w, w.pos_x(), w.pos_y(), w.angle() + off);
    fx_mul(d, cos_fixed_spec(off))
}

/// Slice height for a corrected distance: `screen_h / cd` in fixed point,
/// clamped to the screen height; a degenerate (zero or negative) corrected
/// distance yields a full-height slice rather than a division by zero.
pub open spec fn slice_height_spec(screen_h: int, cd: int) -> int {
    if cd <= 0 {
        screen_h
    } else {
        let hh = quot_trunc(screen_h * FX_ONE, cd);
        if hh > screen_h {
            screen_h
        } else {
            hh
        }
    }
}

/// Vertical margin above a slice of the given corrected distance.
pub open spec fn margin_spec(screen_h: int, cd: int) -> int {
    (screen_h - slice_height_spec(screen_h, cd)) / 2
}

/// Computes the column profile for one frame: `num_columns` slices covering
/// the field of view `fov` (fixed-point radians), for a screen of
/// `screen_height` pixels.
pub fn project_columns(world: &World, fov: i64, num_columns: usize, screen_height: usize) -> (v:
    Vec<Column>)
    requires
        world.wf(),
        0 < fov <= FX_TWO_PI,
        0 < num_columns <= 1048576,
        screen_height <= 0x4000_0000,
        -FX_MAX_COORD <= world.pos_x() <= FX_MAX_COORD,
        -FX_MAX_COORD <= world.pos_y() <= FX_MAX_COORD,
        -0x1000_0000_0000_0000 <= world.angle() <= 0x1000_0000_0000_0000,
    ensures
        v.len() == num_columns,
        forall|i: int|
            0 <= i < num_columns ==> {
                let cd = corrected_dist_spec(*world, fov as int, num_columns as int, i);
                (#[trigger] v@[i]).slice_height == slice_height_spec(screen_height as int, cd)
                    && v@[i].margin == margin_spec(screen_height as int, cd)
            },
{
    let mut v: Vec<Column> = Vec::new();
    let mut i: usize = 0;
    let n: i64 = num_columns as i64;
    let sh: i64 = screen_height as i64;
    while i < num_columns
        invariant
            world.wf(),
            0 < fov <= FX_TWO_PI,
            0 < num_columns <= 1048576,
            n == num_columns,
            sh == screen_height,
            screen_height <= 0x4000_0000,
            -FX_MAX_COORD <= world.pos_x() <= FX_MAX_COORD,
            -FX_MAX_COORD <= world.pos_y() <= FX_MAX_COORD,
            -0x1000_0000_0000_0000 <= world.angle() <= 0x1000_0000_0000_0000,
            i <= num_columns,
            v.len() == i,
            forall|j: int|
                0 <= j < i ==> {
                    let cd = corrected_dist_spec(*world, fov as int, num_columns as int, j);
                    (#[trigger] v@[j]).slice_height == slice_height_spec(screen_height as int, cd)
                        && v@[j].margin == margin_spec(screen_height as int, cd)
                },
        decreases num_columns - i,
    {
        proof {
            assert(-0x80_0000_0000_0000 <= fov * (2 * (i as int) - n) <= 0x80_0000_0000_0000)
                by (nonlinear_arith)
                requires
                    0 < fov <= 411775,
                    0 <= i <= n <= 1048576,
            ;
        }
        let off: i64 = crate::fixed::div_toward_zero(fov * (2 * (i as i64) - n), 2 * n);
        let ray_angle: i64 = world.get_user_angle() + off;
        let d: i64 = world.cast(world.get_user_x(), world.get_user_y(), ray_angle);
        let cos_off: i64 = cos_fixed(off);
        proof {
            assert(-0x7fff_ffff_ffff_ffff <= d * cos_off <= 0x7fff_ffff_ffff_ffff)
                by (nonlinear_arith)
                requires
                    0 <= d < 0x4000_0000_0000,
                    -65536 <= cos_off <= 65536,
            ;
        }
        let cd: i64 = crate::fixed::mul_fixed(d, cos_off);
        let col: Column = if cd <= 0 {
            Column { slice_height: sh as usize, margin: 0 }
        } else {
            let hh: i64 = crate::fixed::div_toward_zero(sh * crate::fixed::FX_ONE, cd);
            proof {
                assert(hh >= 0);
            }
            if hh > sh {
                Column { slice_height: sh as usize, margin: 0 }
            } else {
                let mar: i64 = (((sh - hh) as u64) / 2) as i64;
                Column { slice_height: hh as usize, margin: mar as usize }
            }
        };
        v.push(col);
        i = i + 1;
    }
    v
}

/// Computes the debug ray fan: for each of `num_rays` columns, the absolute
/// ray angle and the cast distance along it.
pub fn ray_fan(world: &World, fov: i64, num_rays: usize) -> (v: Vec<(i64, i64)>)
    requires
        world.wf(),
        0 < fov <= FX_TWO_PI,
        0 < num_rays <= 1048576,
        -FX_MAX_COORD <= world.pos_x() <= FX_MAX_COORD,
        -FX_MAX_COORD <= world.pos_y() <= FX_MAX_COORD,
        -0x1000_0000_0000_0000 <= world.angle() <= 0x1000_0000_0000_0000,
    ensures
        v.len() == num_rays,
        forall|i: int|
            0 <= i < num_rays ==> {
                let off = offset_angle_spec(fov as int, i, num_rays as int);
                (#[trigger] v@[i]).0 == world.angle() + off && v@[i].1 == cast_spec(
                    *world,
                    world.pos_x(),
                    world.pos_y(),
                    world.angle() + off,
                )
            },
{
    let mut v: Vec<(i64, i64)> = Vec::new();
    let mut i: usize = 0;
    let n: i64 = num_rays as i64;
    while i < num_rays
        invariant
            world.wf(),
            0 < fov <= FX_TWO_PI,
            0 < num_rays <= 1048576,
            n == num_rays,
            -FX_MAX_COORD <= world.pos_x() <= FX_MAX_COORD,
            -FX_MAX_COORD <= world.pos_y() <= FX_MAX_COORD,
            -0x1000_0000_0000_0000 <= world.angle() <= 0x1000_0000_0000_0000,
            i <= num_rays,
            v.len() == i,
            forall|j: int|
                0 <= j < i ==> {
                    let off = offset_angle_spec(fov as int, j, num_rays as int);
                    (#[trigger] v@[j]).0 == world.angle() + off && v@[j].1 == cast_spec(
                        *world,
                        world.pos_x(),
                        world.pos_y(),
                        world.angle() + off,
                    )
                },
        decreases num_rays - i,
    {
        proof {
            assert(-0x80_0000_0000_0000 <= fov * (2 * (i as int) - n) <= 0x80_0000_0000_0000)
                by (nonlinear_arith)
                requires
                    0 < fov <= 411775,
                    0 <= i <= n <= 1048576,
            ;
        }
        let off: i64 = crate::fixed::div_toward_zero(fov * (2 * (i as i64) - n), 2 * n);
        let ray_angle: i64 = world.get_user_angle() + off;
        let d: i64 = world.cast(world.get_user_x(), world.get_user_y(), ray_angle);
        v.push((ray_angle, d));
        i = i + 1;
    }
    v
}

/// At the exact center of the fan (a column with `2 * i == n`) the offset
/// angle is zero, its cosine is one, and the fisheye correction is the
/// identity: the corrected distance equals the cast distance itself.
pub proof fn lemma_center_column_uncorrected(w: World, fov: int, n: int, i: int)
    requires
        n > 0,
        2 * i == n,
    ensures
        offset_angle_spec(fov, i, n) == 0,
        cos_fixed_spec(0) == FX_ONE,
        corrected_dist_spec(w, fov, n, i) == cast_spec(w, w.pos_x(), w.pos_y(), w.angle()),
{
    assert(fov * (2 * i - n) == 0) by (nonlinear_arith)
        requires
            2 * i == n,
    ;
    assert(offset_angle_spec(fov, i, n) == 0);
    assert(cos_fixed_spec(0) == FX_ONE);
    let d = cast_spec(w, w.pos_x(), w.pos_y(), w.angle());
    assert(fx_mul(d, FX_ONE as int) == d) by {
        if d >= 0 {
            vstd::arithmetic::div_mod::lemma_div_by_multiple(d, FX_ONE as int);
        } else {
            vstd::arithmetic::div_mod::lemma_div_by_multiple(-d, FX_ONE as int);
            assert((-d) * (FX_ONE as int) == -(d * (FX_ONE as int))) by (nonlinear_arith);
        }
    }
}

} // verus!
