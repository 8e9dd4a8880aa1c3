//! The grid world model.
//!
//! A `World` owns a rectangular boolean occupancy grid, stored row-major in a
//! flat buffer and indexed `[y][x]`, together with the observer's pose: a
//! continuous fixed-point position and an unbounded facing angle in
//! fixed-point radians. The grid is mutated only through a bounds-checked
//! setter; the pose only through `rotate_user` and `move_user`.

use vstd::prelude::*;

use crate::fixed::abs_int;
use crate::fixed::fx_ceil;
use crate::fixed::fx_div;
use crate::fixed::fx_floor;
use crate::fixed::fx_mul;
use crate::fixed::FX_HALF_PI;
use crate::fixed::FX_ONE;
use crate::trig::cos_fixed;
use crate::trig::cos_fixed_spec;
use crate::trig::sin_fixed;
use crate::trig::sin_fixed_spec;

verus! {

/// Largest accepted grid side, so that grid coordinates in fixed point stay
/// far from the integer limits.
pub const GRID_DIM_LIMIT: usize = 1048576;

/// Largest magnitude of an observer coordinate (fixed point) accepted by the
/// pose and cast operations.
pub const FX_MAX_COORD: i64 = 0x100_0000_0000;

/// The error of the bounds-checked grid accessors.
#[derive(Clone, Copy, Debug, PartialEq, Eq, Structural)]
pub enum WorldError {
    /// The requested cell lies outside the grid.
    OutOfBounds,
}

/// The occupancy grid and the observer's pose.
pub struct World {
    blocks: Vec<bool>,
    width: usize,
    height: usize,
    user_x: i64,
    user_y: i64,
    user_angle: i64,
}

impl World {
    /// Grid width in cells.
    pub closed spec fn grid_width(self) -> int {
        self.width as int
    }

    /// Grid height in cells.
    pub closed spec fn grid_height(self) -> int {
        self.height as int
    }

    /// Occupancy of the cell in column `x` of row `y`.
    pub closed spec fn cell(self, x: int, y: int) -> bool {
        self.blocks@[y * self.width + x]
    }

    /// Observer x coordinate, fixed point.
    pub closed spec fn pos_x(self) -> int {
        self.user_x as int
    }

    /// Observer y coordinate, fixed point.
    pub closed spec fn pos_y(self) -> int {
        self.user_y as int
    }

    /// Observer facing angle, fixed-point radians, not wrapped.
    pub closed spec fn angle(self) -> int {
        self.user_angle as int
    }

    /// Well-formedness: the buffer matches the dimensions and the dimensions
    /// are within the accepted limit.
    pub closed spec fn wf(self) -> bool {
        &&& self.blocks.len() == self.width * self.height
        &&& self.width <= GRID_DIM_LIMIT
        &&& self.height <= GRID_DIM_LIMIT
    }
}

/// Whether (x, y) indexes a cell of the grid.
pub open spec fn grid_in_bounds(w: World, x: int, y: int) -> bool {
    0 <= x < w.grid_width() && 0 <= y < w.grid_height()
}

/// What a bounds-checked read returns.
pub open spec fn block_at_spec(w: World, x: int, y: int) -> Result<bool, WorldError> {
    if grid_in_bounds(w, x, y) {
        Ok(w.cell(x, y))
    } else {
        Err(WorldError::OutOfBounds)
    }
}

/// Two worlds with the same grid dimensions and contents.
pub open spec fn same_grid(a: World, b: World) -> bool {
    &&& a.grid_width() == b.grid_width()
    &&& a.grid_height() == b.grid_height()
    &&& forall|i: int, j: int| #[trigger] b.cell(i, j) == a.cell(i, j)
}

/// Two worlds with the same observer pose.
pub open spec fn same_pose(a: World, b: World) -> bool {
    a.pos_x() == b.pos_x() && a.pos_y() == b.pos_y() && a.angle() == b.angle()
}

/// How a successful write of `v` at (x, y) relates the world before and after:
/// that one cell holds `v`, every other cell and all the rest of the state is
/// unchanged.
pub open spec fn set_block_ok(pre: World, post: World, x: int, y: int, v: bool) -> bool {
    &&& post.wf()
    &&& post.grid_width() == pre.grid_width()
    &&& post.grid_height() == pre.grid_height()
    &&& same_pose(pre, post)
    &&& post.cell(x, y) == v
    &&& forall|i: int, j: int|
        grid_in_bounds(pre, i, j) && (i != x || j != y) ==> #[trigger] post.cell(i, j) == pre.cell(
            i,
            j,
        )
}

impl World {
    /// Allocates an all-free grid of the given dimensions, with the observer
    /// at the origin facing angle zero.
    pub fn new(width: usize, height: usize) -> (w: World)
        requires
            width <= GRID_DIM_LIMIT,
            height <= GRID_DIM_LIMIT,
            width * height <= usize::MAX,
        ensures
            w.wf(),
            w.grid_width() == width,
            w.grid_height() == height,
            forall|i: int, j: int| grid_in_bounds(w, i, j) ==> !#[trigger] w.cell(i, j),
            w.pos_x() == 0,
            w.pos_y() == 0,
            w.angle() == 0,
    {
        let n: usize = width * height;
        let mut blocks: Vec<bool> = Vec::new();
        let mut k: usize = 0;
        while k < n
            invariant
                k <= n,
                blocks.len() == k,
                forall|t: int| 0 <= t < k ==> !blocks@[t],
            decreases n - k,
        {
            blocks.push(false);
            k = k + 1;
        }
        let w = World { blocks, width, height, user_x: 0, user_y: 0, user_angle: 0 };
        proof {
            assert forall|i: int, j: int| grid_in_bounds(w, i, j) implies !w.cell(i, j) by {
                assert(0 <= j * width + i < width * height) by (nonlinear_arith)
                    requires
                        0 <= i < width,
                        0 <= j < height,
                ;
            }
        }
        w
    }

    /// Reads one cell; fails with `OutOfBounds` exactly when (x, y) lies
    /// outside the grid.
    pub fn block_at(&self, x: usize, y: usize) -> (r: Result<bool, WorldError>)
        requires
            self.wf(),
        ensures
            r == block_at_spec(*self, x as int, y as int),
            grid_in_bounds(*self, x as int, y as int) <==> r is Ok,
    {
        if x >= self.width || y >= self.height {
            Err(WorldError::OutOfBounds)
        } else {
            proof {
                assert(0 <= y * self.width + x < self.width * self.height) by (nonlinear_arith)
                    requires
                        0 <= x < self.width,
                        0 <= y < self.height,
                ;
            }
            Ok(self.blocks[y * self.width + x])
        }
    }

    /// Writes one cell; fails with `OutOfBounds` exactly when (x, y) lies
    /// outside the grid, leaving the world unchanged.
    pub fn set_block(&mut self, x: usize, y: usize, block: bool) -> (r: Result<(), WorldError>)
        requires
            old(self).wf(),
        ensures
            final (self).wf(),
            grid_in_bounds(*old(self), x as int, y as int) ==> r == Ok::<(), WorldError>(())
                && set_block_ok(*old(self), *final (self), x as int, y as int, block),
            !grid_in_bounds(*old(self), x as int, y as int) ==> r == Err::<(), WorldError>(
                WorldError::OutOfBounds,
            ) && *final (self) == *old(self),
    {
        if x >= self.width || y >= self.height {
            Err(WorldError::OutOfBounds)
        } else {
            proof {
                assert(0 <= y * self.width + x < self.width * self.height) by (nonlinear_arith)
                    requires
                        0 <= x < self.width,
                        0 <= y < self.height,
                ;
            }
            let idx: usize = y * self.width + x;
            self.blocks.set(idx, block);
            proof {
                let pre = *old(self);
                let post = *self;
                assert forall|i: int, j: int|
                    grid_in_bounds(pre, i, j) && (i != x as int || j != y as int) implies #[trigger] post.cell(
                    i,
                    j,
                ) == pre.cell(i, j) by {
                    assert(j * pre.width + i != y * pre.width + x && 0 <= j * pre.width + i
                        < pre.width * pre.height) by (nonlinear_arith)
                        requires
                            0 <= i < pre.width,
                            0 <= j < pre.height,
                            0 <= x < pre.width,
                            0 <= y < pre.height,
                            i != x || j != y,
                    ;
                }
            }
            Ok(())
        }
    }

    /// Adds `delta_angle` (fixed-point radians, signed) to the facing angle.
    /// No wrapping: the angle accumulates freely.
    pub fn rotate_user(&mut self, delta_angle: i64)
        requires
            i64::MIN < old(self).angle() + delta_angle <= i64::MAX,
        ensures
            final (self).angle() == old(self).angle() + delta_angle,
            final (self).pos_x() == old(self).pos_x(),
            final (self).pos_y() == old(self).pos_y(),
            same_grid(*old(self), *final (self)),
            old(self).wf() ==> final (self).wf(),
    {
        self.user_angle = self.user_angle + delta_angle;
    }

    /// Translates the position by `amount` along the current facing:
    /// `amount * (cos(angle), sin(angle))`. Negative `amount` moves backward.
    pub fn move_user(&mut self, amount: i64)
        requires
            old(self).angle() > i64::MIN + FX_HALF_PI,
            abs_int(amount as int) <= FX_MAX_COORD,
            abs_int(old(self).pos_x()) + abs_int(amount as int) <= FX_MAX_COORD,
            abs_int(old(self).pos_y()) + abs_int(amount as int) <= FX_MAX_COORD,
        ensures
            final (self).pos_x() == old(self).pos_x() + fx_mul(
                amount as int,
                cos_fixed_spec(old(self).angle()),
            ),
            final (self).pos_y() == old(self).pos_y() + fx_mul(
                amount as int,
                sin_fixed_spec(old(self).angle()),
            ),
            abs_int(final (self).pos_x()) <= FX_MAX_COORD,
            abs_int(final (self).pos_y()) <= FX_MAX_COORD,
            final (self).angle() == old(self).angle(),
            same_grid(*old(self), *final (self)),
            old(self).wf() ==> final (self).wf(),
    {
        let c: i64 = cos_fixed(self.user_angle);
        let s: i64 = sin_fixed(self.user_angle);
        proof {
            assert(-0x7fff_ffff_ffff_ffff <= amount * c <= 0x7fff_ffff_ffff_ffff)
                by (nonlinear_arith)
                requires
                    -0x100_0000_0000 <= amount <= 0x100_0000_0000,
                    -65536 <= c <= 65536,
            ;
            assert(-0x7fff_ffff_ffff_ffff <= amount * s <= 0x7fff_ffff_ffff_ffff)
                by (nonlinear_arith)
                requires
                    -0x100_0000_0000 <= amount <= 0x100_0000_0000,
                    -65536 <= s <= 65536,
            ;
            crate::fixed::lemma_fx_mul_bound(amount as int, c as int);
            crate::fixed::lemma_fx_mul_bound(amount as int, s as int);
        }
        let dx: i64 = crate::fixed::mul_fixed(amount, c);
        let dy: i64 = crate::fixed::mul_fixed(amount, s);
        self.user_x = self.user_x + dx;
        self.user_y = self.user_y + dy;
    }

    /// Runs the vertical-edge sweep loop for a ray from (sx, sy) with
    /// direction cosine `c` and sine `s`, returning its stopping point.
    fn run_vsweep(&self, sx: i64, sy: i64, c: i64, s: i64) -> (p: (i64, i64))
        requires
            self.wf(),
            c != 0,
            -FX_ONE <= c <= FX_ONE,
            -FX_ONE <= s <= FX_ONE,
            -FX_MAX_COORD <= sx <= FX_MAX_COORD,
            -FX_MAX_COORD <= sy <= FX_MAX_COORD,
        ensures
            ({
                let xneg = c < 0;
                let x0 = if c > 0 {
                    fx_ceil(sx as int)
                } else {
                    fx_floor(sx as int)
                };
                let t = fx_div(s as int, c as int);
                let dy = if xneg {
                    -t
                } else {
                    t
                };
                let y0 = sy + fx_mul(t, x0 - sx);
                (p.0 as int, p.1 as int) == vsweep_stop(*self, x0, y0, xneg, dy)
            }),
            -0x300_0000_0000 <= p.0 <= 0x300_0000_0000,
            -0x300_0000_0000 <= p.1 <= 0x300_0000_0000,
    {
        let xneg: bool = c < 0;
        let x0: i64 = if c > 0 {
            crate::fixed::ceil_fixed(sx)
        } else {
            crate::fixed::floor_fixed(sx)
        };
        let t: i64 = crate::fixed::div_fixed(s, c);
        proof {
            crate::fixed::lemma_quot_trunc_bound(s as int * FX_ONE, c as int);
            assert(abs_int(s as int * FX_ONE) <= 0x1_0000_0000);
            crate::fixed::lemma_fx_mul_bound(t as int, x0 - sx);
            assert(-0x7fff_ffff_ffff_ffff <= t * (x0 - sx) <= 0x7fff_ffff_ffff_ffff)
                by (nonlinear_arith)
                requires
                    -0x1_0000_0000 <= t <= 0x1_0000_0000,
                    -65536 <= x0 - sx <= 65536,
            ;
        }
        let dy: i64 = if xneg {
            -t
        } else {
            t
        };
        let y0: i64 = sy + crate::fixed::mul_fixed(t, x0 - sx);
        proof {
            assert(self.width * 65536 <= 1048576 * 65536) by (nonlinear_arith)
                requires
                    self.width <= 1048576,
            ;
            assert(self.height * 65536 <= 1048576 * 65536) by (nonlinear_arith)
                requires
                    self.height <= 1048576,
            ;
        }
        let w_fx: i64 = (self.width as i64) * FX_ONE;
        let h_fx: i64 = (self.height as i64) * FX_ONE;
        let xlo: i64 = if xneg {
            FX_ONE
        } else {
            0
        };
        let mut x: i64 = x0;
        let mut y: i64 = y0;
        let ghost gx0: int = x0 as int;
        let ghost gy0: int = y0 as int;
        while xlo <= x && x < w_fx && 0 <= y && y < h_fx
            invariant
                self.wf(),
                w_fx == self.grid_width() * FX_ONE,
                h_fx == self.grid_height() * FX_ONE,
                xlo == (if xneg {
                    FX_ONE as int
                } else {
                    0int
                }),
                -0x100_0000_0000 - 65536 <= gx0 <= 0x100_0000_0000 + 65536,
                -0x200_0000_0000 <= gy0 <= 0x200_0000_0000,
                -0x1_0000_0000 <= dy <= 0x1_0000_0000,
                (x == gx0 && y == gy0) || (0 <= x && x < w_fx + FX_ONE && -0x1_0000_0000 <= y && y
                    < h_fx + 0x1_0000_0000),
                vsweep_stop(*self, x as int, y as int, xneg, dy as int) == vsweep_stop(
                    *self,
                    gx0,
                    gy0,
                    xneg,
                    dy as int,
                ),
            ensures
                vsweep_stop(*self, gx0, gy0, xneg, dy as int) == (x as int, y as int),
                !vsweep_in_range(*self, x as int, y as int, xneg) || self.cell(
                    vcell_x(x as int, xneg),
                    (y as int) / (FX_ONE as int),
                ),
            decreases
                    (if xneg {
                        x + FX_ONE
                    } else {
                        w_fx + FX_ONE - x
                    }),
        {
            let ghost px: int = x as int;
            let ghost py: int = y as int;
            proof {
                assert(vsweep_in_range(*self, px, py, xneg));
                vstd::arithmetic::div_mod::lemma_multiply_divide_lt(
                    px,
                    FX_ONE as int,
                    self.grid_width(),
                );
                assert((FX_ONE as int) * self.grid_width() == self.grid_width() * (FX_ONE as int))
                    by (nonlinear_arith);
                vstd::arithmetic::div_mod::lemma_multiply_divide_lt(
                    py,
                    FX_ONE as int,
                    self.grid_height(),
                );
                assert((FX_ONE as int) * self.grid_height() == self.grid_height() * (FX_ONE as int))
                    by (nonlinear_arith);
            }
            let cx: usize = if xneg {
                ((x as u64) / 65536 - 1) as usize
            } else {
                ((x as u64) / 65536) as usize
            };
            let cy: usize = ((y as u64) / 65536) as usize;
            proof {
                assert(cx == vcell_x(px, xneg));
                assert(cy == py / (FX_ONE as int));
                assert(cy * self.width + cx < self.width * self.height && cy * self.width + cx >= 0)
                    by (nonlinear_arith)
                    requires
                        0 <= cx < self.width,
                        0 <= cy < self.height,
                ;
            }
            let idx: usize = cy * self.width + cx;
            if self.blocks[idx] {
                proof {
                    assert(self.cell(vcell_x(px, xneg), py / (FX_ONE as int)));
                    assert(vsweep_stop(*self, px, py, xneg, dy as int) == (px, py));
                }
                break ;
            }
            x = if xneg {
                x - FX_ONE
            } else {
                x + FX_ONE
            };
            y = y + dy;
            proof {
                assert(!self.cell(vcell_x(px, xneg), py / (FX_ONE as int)));
                assert(vsweep_stop(*self, px, py, xneg, dy as int) == vsweep_stop(
                    *self,
                    x as int,
                    y as int,
                    xneg,
                    dy as int,
                ));
            }
        }
        (x, y)
    }

    /// Runs the horizontal-edge sweep loop, the mirror image of `run_vsweep`.
    fn run_hsweep(&self, sx: i64, sy: i64, c: i64, s: i64) -> (p: (i64, i64))
        requires
            self.wf(),
            s != 0,
            -FX_ONE <= c <= FX_ONE,
            -FX_ONE <= s <= FX_ONE,
            -FX_MAX_COORD <= sx <= FX_MAX_COORD,
            -FX_MAX_COORD <= sy <= FX_MAX_COORD,
        ensures
            ({
                let yneg = s < 0;
                let y0 = if s > 0 {
                    fx_ceil(sy as int)
                } else {
                    fx_floor(sy as int)
                };
                let u = fx_div(c as int, s as int);
                let dx = if yneg {
                    -u
                } else {
                    u
                };
                let x0 = sx + fx_mul(u, y0 - sy);
                (p.0 as int, p.1 as int) == hsweep_stop(*self, x0, y0, yneg, dx)
            }),
            -0x300_0000_0000 <= p.0 <= 0x300_0000_0000,
            -0x300_0000_0000 <= p.1 <= 0x300_0000_0000,
    {
        let yneg: bool = s < 0;
        let y0: i64 = if s > 0 {
            crate::fixed::ceil_fixed(sy)
        } else {
            crate::fixed::floor_fixed(sy)
        };
        let u: i64 = crate::fixed::div_fixed(c, s);
        proof {
            crate::fixed::lemma_quot_trunc_bound(c as int * FX_ONE, s as int);
            assert(abs_int(c as int * FX_ONE) <= 0x1_0000_0000);
            crate::fixed::lemma_fx_mul_bound(u as int, y0 - sy);
            assert(-0x7fff_ffff_ffff_ffff <= u * (y0 - sy) <= 0x7fff_ffff_ffff_ffff)
                by (nonlinear_arith)
                requires
                    -0x1_0000_0000 <= u <= 0x1_0000_0000,
                    -65536 <= y0 - sy <= 65536,
            ;
        }
        let dx: i64 = if yneg {
            -u
        } else {
            u
        };
        let x0: i64 = sx + crate::fixed::mul_fixed(u, y0 - sy);
        proof {
            assert(self.width * 65536 <= 1048576 * 65536) by (nonlinear_arith)
                requires
                    self.width <= 1048576,
            ;
            assert(self.height * 65536 <= 1048576 * 65536) by (nonlinear_arith)
                requires
                    self.height <= 1048576,
            ;
        }
        let w_fx: i64 = (self.width as i64) * FX_ONE;
        let h_fx: i64 = (self.height as i64) * FX_ONE;
        let ylo: i64 = if yneg {
            FX_ONE
        } else {
            0
        };
        let mut x: i64 = x0;
        let mut y: i64 = y0;
        let ghost gx0: int = x0 as int;
        let ghost gy0: int = y0 as int;
        while 0 <= x && x < w_fx && ylo <= y && y < h_fx
            invariant
                self.wf(),
                w_fx == self.grid_width() * FX_ONE,
                h_fx == self.grid_height() * FX_ONE,
                ylo == (if yneg {
                    FX_ONE as int
                } else {
                    0int
                }),
                -0x200_0000_0000 <= gx0 <= 0x200_0000_0000,
                -0x100_0000_0000 - 65536 <= gy0 <= 0x100_0000_0000 + 65536,
                -0x1_0000_0000 <= dx <= 0x1_0000_0000,
                (x == gx0 && y == gy0) || (0 <= y && y < h_fx + FX_ONE && -0x1_0000_0000 <= x && x
                    < w_fx + 0x1_0000_0000),
                hsweep_stop(*self, x as int, y as int, yneg, dx as int) == hsweep_stop(
                    *self,
                    gx0,
                    gy0,
                    yneg,
                    dx as int,
                ),
            ensures
                hsweep_stop(*self, gx0, gy0, yneg, dx as int) == (x as int, y as int),
            decreases
                    (if yneg {
                        y + FX_ONE
                    } else {
                        h_fx + FX_ONE - y
                    }),
        {
            let ghost px: int = x as int;
            let ghost py: int = y as int;
            proof {
                assert(hsweep_in_range(*self, px, py, yneg));
                vstd::arithmetic::div_mod::lemma_multiply_divide_lt(
                    px,
                    FX_ONE as int,
                    self.grid_width(),
                );
                assert((FX_ONE as int) * self.grid_width() == self.grid_width() * (FX_ONE as int))
                    by (nonlinear_arith);
                vstd::arithmetic::div_mod::lemma_multiply_divide_lt(
                    py,
                    FX_ONE as int,
                    self.grid_height(),
                );
                assert((FX_ONE as int) * self.grid_height() == self.grid_height() * (FX_ONE as int))
                    by (nonlinear_arith);
            }
            let cx: usize = ((x as u64) / 65536) as usize;
            let cy: usize = if yneg {
                ((y as u64) / 65536 - 1) as usize
            } else {
                ((y as u64) / 65536) as usize
            };
            proof {
                assert(cx == px / (FX_ONE as int));
                assert(cy == hcell_y(py, yneg));
                assert(cy * self.width + cx < self.width * self.height && cy * self.width + cx >= 0)
                    by (nonlinear_arith)
                    requires
                        0 <= cx < self.width,
                        0 <= cy < self.height,
                ;
            }
            let idx: usize = cy * self.width + cx;
            if self.blocks[idx] {
                proof {
                    assert(self.cell(px / (FX_ONE as int), hcell_y(py, yneg)));
                    assert(hsweep_stop(*self, px, py, yneg, dx as int) == (px, py));
                }
                break ;
            }
            x = x + dx;
            y = if yneg {
                y - FX_ONE
            } else {
                y + FX_ONE
            };
            proof {
                assert(!self.cell(px / (FX_ONE as int), hcell_y(py, yneg)));
                assert(hsweep_stop(*self, px, py, yneg, dx as int) == hsweep_stop(
                    *self,
                    x as int,
                    y as int,
                    yneg,
                    dx as int,
                ));
            }
        }
        (x, y)
    }

    /// Distance along the ray from (start_x, start_y) at `angle` (fixed-point
    /// radians) to the nearest occupied cell boundary, or to the point where
    /// the ray leaves the grid. The result is the integer square root of the
    /// squared distance `cast_dist2`, hence finite and nonnegative for every
    /// angle, axis-aligned rays included.
    pub fn cast(&self, start_x: i64, start_y: i64, angle: i64) -> (r: i64)
        requires
            self.wf(),
            -FX_MAX_COORD <= start_x <= FX_MAX_COORD,
            -FX_MAX_COORD <= start_y <= FX_MAX_COORD,
            -0x2000_0000_0000_0000 <= angle <= 0x2000_0000_0000_0000,
        ensures
            r >= 0,
            r < 0x4000_0000_0000,
            (r as int) * (r as int) <= cast_dist2(*self, start_x as int, start_y as int, angle as int),
            cast_dist2(*self, start_x as int, start_y as int, angle as int) < ((r as int) + 1) * (
            (r as int) + 1),
            r == cast_spec(*self, start_x as int, start_y as int, angle as int),
    {
        let c: i64 = cos_fixed(angle);
        let s: i64 = sin_fixed(angle);
        let d2: u128 = if c != 0 && s != 0 {
            let pv = self.run_vsweep(start_x, start_y, c, s);
            let ph = self.run_hsweep(start_x, start_y, c, s);
            let dv = dist2_exec(start_x, start_y, pv.0, pv.1);
            let dh = dist2_exec(start_x, start_y, ph.0, ph.1);
            if dv <= dh {
                dv
            } else {
                dh
            }
        } else if c != 0 {
            let pv = self.run_vsweep(start_x, start_y, c, s);
            dist2_exec(start_x, start_y, pv.0, pv.1)
        } else if s != 0 {
            let ph = self.run_hsweep(start_x, start_y, c, s);
            dist2_exec(start_x, start_y, ph.0, ph.1)
        } else {
            0
        };
        proof {
            assert(d2 == cast_dist2(*self, start_x as int, start_y as int, angle as int));
        }
        let r: u64 = crate::fixed::isqrt128(d2);
        r as i64
    }

    /// Observer x coordinate, fixed point.
    pub fn get_user_x(&self) -> (r: i64)
        ensures
            r == self.pos_x(),
    {
        self.user_x
    }

    /// Observer y coordinate, fixed point.
    pub fn get_user_y(&self) -> (r: i64)
        ensures
            r == self.pos_y(),
    {
        self.user_y
    }

    /// Observer facing angle, fixed-point radians.
    pub fn get_user_angle(&self) -> (r: i64)
        ensures
            r == self.angle(),
    {
        self.user_angle
    }
}

/// Squared distance from (sx, sy) to a sweep stopping point, computed in
/// 128 bits so nothing overflows.
fn dist2_exec(sx: i64, sy: i64, px: i64, py: i64) -> (d2: u128)
    requires
        -FX_MAX_COORD <= sx <= FX_MAX_COORD,
        -FX_MAX_COORD <= sy <= FX_MAX_COORD,
        -0x300_0000_0000 <= px <= 0x300_0000_0000,
        -0x300_0000_0000 <= py <= 0x300_0000_0000,
    ensures
        d2 == dist2(sx as int, sy as int, (px as int, py as int)),
        d2 < 0x1000_0000_0000_0000_0000_0000,
{
    let ddx: i64 = sx - px;
    let ddy: i64 = sy - py;
    let ax: u64 = if ddx >= 0 {
        ddx as u64
    } else {
        (-ddx) as u64
    };
    let ay: u64 = if ddy >= 0 {
        ddy as u64
    } else {
        (-ddy) as u64
    };
    proof {
        assert((ax as int) * (ax as int) == (ddx as int) * (ddx as int)) by (nonlinear_arith)
            requires
                ax == abs_int(ddx as int),
        ;
        assert((ay as int) * (ay as int) == (ddy as int) * (ddy as int)) by (nonlinear_arith)
            requires
                ay == abs_int(ddy as int),
        ;
        assert((ax as int) * (ax as int) < 0x800_0000_0000_0000_0000_0000) by (nonlinear_arith)
            requires
                ax <= 0x400_0000_0000u64,
        ;
        assert((ay as int) * (ay as int) < 0x800_0000_0000_0000_0000_0000) by (nonlinear_arith)
            requires
                ay <= 0x400_0000_0000u64,
        ;
    }
    (ax as u128) * (ax as u128) + (ay as u128) * (ay as u128)
}

/// Column of the candidate cell at the vertical grid line through `x`: the
/// cell ahead of the line in the travel direction (to its left when moving
/// toward decreasing x, to its right otherwise).
pub open spec fn vcell_x(x: int, xneg: bool) -> int {
    if xneg {
        x / (FX_ONE as int) - 1
    } else {
        x / (FX_ONE as int)
    }
}

/// Whether the vertical-edge sweep may look up a candidate cell at (x, y):
/// the running point lies inside the grid and the candidate column does not
/// underflow.
pub open spec fn vsweep_in_range(w: World, x: int, y: int, xneg: bool) -> bool {
    &&& if xneg {
        FX_ONE <= x
    } else {
        0 <= x
    }
    &&& x < w.grid_width() * FX_ONE
    &&& 0 <= y < w.grid_height() * FX_ONE
}

/// Stopping point of the vertical-edge sweep: starting from (x, y) and
/// stepping one grid column at a time (y advancing by `dy`), the first point
/// whose candidate cell is occupied, or the first point outside the grid.
pub open spec fn vsweep_stop(w: World, x: int, y: int, xneg: bool, dy: int) -> (int, int)
    decreases
            (if xneg {
                x + FX_ONE
            } else {
                w.grid_width() * FX_ONE + FX_ONE - x
            }),
{
    if !vsweep_in_range(w, x, y, xneg) {
        (x, y)
    } else if w.cell(vcell_x(x, xneg), y / (FX_ONE as int)) {
        (x, y)
    } else if xneg {
        vsweep_stop(w, x - FX_ONE, y + dy, xneg, dy)
    } else {
        vsweep_stop(w, x + FX_ONE, y + dy, xneg, dy)
    }
}

/// Row of the candidate cell at the horizontal grid line through `y`.
pub open spec fn hcell_y(y: int, yneg: bool) -> int {
    if yneg {
        y / (FX_ONE as int) - 1
    } else {
        y / (FX_ONE as int)
    }
}

/// Whether the horizontal-edge sweep may look up a candidate cell at (x, y).
pub open spec fn hsweep_in_range(w: World, x: int, y: int, yneg: bool) -> bool {
    &&& 0 <= x < w.grid_width() * FX_ONE
    &&& if yneg {
        FX_ONE <= y
    } else {
        0 <= y
    }
    &&& y < w.grid_height() * FX_ONE
}

/// Stopping point of the horizontal-edge sweep, the mirror image of
/// `vsweep_stop` with the axes swapped.
pub open spec fn hsweep_stop(w: World, x: int, y: int, yneg: bool, dx: int) -> (int, int)
    decreases
            (if yneg {
                y + FX_ONE
            } else {
                w.grid_height() * FX_ONE + FX_ONE - y
            }),
{
    if !hsweep_in_range(w, x, y, yneg) {
        (x, y)
    } else if w.cell(x / (FX_ONE as int), hcell_y(y, yneg)) {
        (x, y)
    } else if yneg {
        hsweep_stop(w, x + dx, y - FX_ONE, yneg, dx)
    } else {
        hsweep_stop(w, x + dx, y + FX_ONE, yneg, dx)
    }
}

/// Squared Euclidean distance from (sx, sy) to the point `p`.
pub open spec fn dist2(sx: int, sy: int, p: (int, int)) -> int {
    (sx - p.0) * (sx - p.0) + (sy - p.1) * (sy - p.1)
}

/// Squared distance contributed by the vertical-edge sweep for a ray from
/// (sx, sy) with direction cosine `c` and sine `s` (all fixed point). The
/// sweep starts at the first vertical grid line ahead of the origin, with y
/// interpolated along the ray, and advances y by `tan` per column.
pub open spec fn vsweep_dist2(w: World, sx: int, sy: int, c: int, s: int) -> int {
    let xneg = c < 0;
    let x0 = if c > 0 {
        fx_ceil(sx)
    } else {
        fx_floor(sx)
    };
    let t = fx_div(s, c);
    let dy = if xneg {
        -t
    } else {
        t
    };
    let y0 = sy + fx_mul(t, x0 - sx);
    dist2(sx, sy, vsweep_stop(w, x0, y0, xneg, dy))
}

/// Squared distance contributed by the horizontal-edge sweep; symmetric to
/// `vsweep_dist2`, stepping rows and advancing x by `cot` per row.
pub open spec fn hsweep_dist2(w: World, sx: int, sy: int, c: int, s: int) -> int {
    let yneg = s < 0;
    let y0 = if s > 0 {
        fx_ceil(sy)
    } else {
        fx_floor(sy)
    };
    let u = fx_div(c, s);
    let dx = if yneg {
        -u
    } else {
        u
    };
    let x0 = sx + fx_mul(u, y0 - sy);
    dist2(sx, sy, hsweep_stop(w, x0, y0, yneg, dx))
}

/// Squared distance returned by a cast: the nearer of the two sweeps, with a
/// sweep skipped when the ray is parallel to its grid lines (cosine or sine
/// exactly zero), and zero in the degenerate case where both are.
pub open spec fn cast_dist2(w: World, sx: int, sy: int, angle: int) -> int {
    let c = cos_fixed_spec(angle);
    let s = sin_fixed_spec(angle);
    if c != 0 && s != 0 {
        let dv = vsweep_dist2(w, sx, sy, c, s);
        let dh = hsweep_dist2(w, sx, sy, c, s);
        if dv <= dh {
            dv
        } else {
            dh
        }
    } else if c != 0 {
        vsweep_dist2(w, sx, sy, c, s)
    } else if s != 0 {
        hsweep_dist2(w, sx, sy, c, s)
    } else {
        0
    }
}

/// The distance returned by a cast: the integer square root of `cast_dist2`.
pub open spec fn cast_spec(w: World, sx: int, sy: int, angle: int) -> int {
    crate::fixed::sqrt_floor(cast_dist2(w, sx, sy, angle))
}

/// A cast can never yield a negative squared distance, whatever the grid,
/// origin and angle — axis-aligned rays, for which one sweep is skipped,
/// included. With the `ensures` of `cast`, which returns the integer square
/// root of this value, every cast distance is finite and nonnegative.
pub proof fn lemma_cast_dist2_nonneg(w: World, sx: int, sy: int, angle: int)
    ensures
        cast_dist2(w, sx, sy, angle) >= 0,
{
    assert forall|p: (int, int)| #[trigger] dist2(sx, sy, p) >= 0 by {
        assert((sx - p.0) * (sx - p.0) >= 0 && (sy - p.1) * (sy - p.1) >= 0) by (nonlinear_arith);
    }
}

/// Writing `v` at (x, y) and then reading (x, y) yields `v`. Together with
/// the `Err` clauses of `set_block` and `block_at`, which make both accessors
/// fail on out-of-range coordinates, this is the round-trip law of the grid.
pub proof fn lemma_set_then_get(pre: World, post: World, x: int, y: int, v: bool)
    requires
        grid_in_bounds(pre, x, y),
        set_block_ok(pre, post, x, y, v),
    ensures
        block_at_spec(post, x, y) == Ok::<bool, WorldError>(v),
{
}

/// The facing angle after `n` rotations by `d` from angle `a`.
pub open spec fn spin(a: int, d: int, n: nat) -> int
    decreases n,
{
    if n == 0 {
        a
    } else {
        spin(a + d, d, (n - 1) as nat)
    }
}

/// Rotation is purely additive: `n` rotations by `d` add `n * d`.
pub proof fn lemma_spin_total(a: int, d: int, n: nat)
    ensures
        spin(a, d, n) == a + n * d,
    decreases n,
{
    if n == 0 {
        assert(n * d == 0) by (nonlinear_arith)
            requires
                n == 0,
        ;
    } else {
        lemma_spin_total(a + d, d, (n - 1) as nat);
        assert(spin(a, d, n) == spin(a + d, d, (n - 1) as nat));
        assert((a + d) + ((n - 1) as nat) * d == a + n * d) by (nonlinear_arith)
            requires
                n >= 1,
        ;
    }
}

/// Rotating by `d` some number of times and then by `-d` the same number of
/// times restores the original facing angle exactly; no wrapping is involved.
pub proof fn lemma_rotate_round_trip(a: int, d: int, n: nat)
    ensures
        spin(spin(a, d, n), -d, n) == a,
{
    lemma_spin_total(a, d, n);
    lemma_spin_total(spin(a, d, n), -d, n);
    assert((a + n * d) + n * (-d) == a) by (nonlinear_arith);
}

/// Moving forward by `amount` and then backward by `amount`, with the facing
/// angle unchanged in between, restores the starting position exactly: the
/// two fixed-point displacements cancel.
pub proof fn lemma_move_round_trip(x: int, y: int, a: int, amount: int)
    ensures
        x + fx_mul(amount, cos_fixed_spec(a)) + fx_mul(-amount, cos_fixed_spec(a)) == x,
        y + fx_mul(amount, sin_fixed_spec(a)) + fx_mul(-amount, sin_fixed_spec(a)) == y,
{
    crate::fixed::lemma_fx_mul_neg(amount, cos_fixed_spec(a));
    crate::fixed::lemma_fx_mul_neg(amount, sin_fixed_spec(a));
}

} // verus!
