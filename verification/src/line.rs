//! Line segments on the pixel grid.
use crate::geometry::Vector2i;
use crate::grid::{lemma_cell_in_range, lemma_cells_differ};
use crate::renderer::Renderer;
use vstd::arithmetic::div_mod::lemma_fundamental_div_mod_converse;
use vstd::prelude::*;

verus! {

/// How far `a` and `b` lie apart.
pub open spec fn distance(a: int, b: int) -> int {
    if a >= b {
        a - b
    } else {
        b - a
    }
}

/// How far the minor coordinate of a line has moved when the major
/// coordinate has moved `k` of its `major` steps, the minor extent being
/// `minor <= major`: the whole number nearest to `k * minor / major`, the
/// lower one where two are equally near.
pub open spec fn minor_steps(k: int, major: int, minor: int) -> int {
    (2 * minor * k + major - 1) / (2 * major)
}

/// A line segment between two points of the pixel grid.
pub struct Segment {
    pub x0: int,
    pub y0: int,
    pub x1: int,
    pub y1: int,
}

impl Segment {
    /// Whether the line runs more along `y` than along `x`; its major axis is
    /// then `y`.
    pub open spec fn steep(&self) -> bool {
        distance(self.x0, self.x1) < distance(self.y0, self.y1)
    }

    /// The number of pixels of the line: its extent along the major axis.
    /// The end point with the larger major coordinate is not drawn, so a
    /// segment of one point has no pixel.
    pub open spec fn len(&self) -> int {
        if self.steep() {
            distance(self.y0, self.y1)
        } else {
            distance(self.x0, self.x1)
        }
    }

    /// The end point from which the line is walked, major coordinate first:
    /// the one with the smaller major coordinate, and the first end point
    /// where both have the same.
    pub open spec fn start(&self) -> (int, int) {
        if self.steep() {
            if self.y0 > self.y1 {
                (self.y1, self.x1)
            } else {
                (self.y0, self.x0)
            }
        } else {
            if self.x0 > self.x1 {
                (self.x1, self.y1)
            } else {
                (self.x0, self.y0)
            }
        }
    }

    /// The other end point, major coordinate first.
    pub open spec fn end(&self) -> (int, int) {
        if self.steep() {
            if self.y0 > self.y1 {
                (self.y0, self.x0)
            } else {
                (self.y1, self.x1)
            }
        } else {
            if self.x0 > self.x1 {
                (self.x0, self.y0)
            } else {
                (self.x1, self.y1)
            }
        }
    }

    /// The `k`-th pixel of the line, as `(x, y)`: `k` steps from the start
    /// along the major axis, and along the minor axis the nearest whole
    /// number of steps toward the end.
    pub open spec fn pixel(&self, k: int) -> (int, int) {
        let (a0, b0) = self.start();
        let (a1, b1) = self.end();
        let n = minor_steps(k, a1 - a0, distance(b0, b1));
        let a = a0 + k;
        let b = if b1 > b0 {
            b0 + n
        } else {
            b0 - n
        };
        if self.steep() {
            (b, a)
        } else {
            (a, b)
        }
    }

    /// Whether `(x, y)` is a pixel of the line.
    pub open spec fn covers(&self, x: int, y: int) -> bool {
        exists|k: int| 0 <= k < self.len() && #[trigger] self.pixel(k) == (x, y)
    }
}

/// The segment between two points given as machine integers.
pub open spec fn segment(x0: i32, y0: i32, x1: i32, y1: i32) -> Segment {
    Segment { x0: x0 as int, y0: y0 as int, x1: x1 as int, y1: y1 as int }
}

/// The running error of the walk pins the number of minor steps taken.
proof fn lemma_minor_steps(k: int, major: int, minor: int, n: int, error2: int)
    requires
        0 < major,
        error2 == 2 * minor * k - 2 * major * n,
        -major < error2 <= major,
    ensures
        n == minor_steps(k, major, minor),
{
    let t = 2 * minor * k + major - 1;
    let r = t - n * (2 * major);
    assert(n * (2 * major) == 2 * major * n) by (nonlinear_arith);
    assert(0 <= r < 2 * major);
    lemma_fundamental_div_mod_converse(t, 2 * major, n, r);
}

/// The minor coordinate never leaves the span of the two end points.
proof fn lemma_minor_bound(k: int, major: int, minor: int, n: int, error2: int)
    requires
        0 <= k < major,
        0 <= minor <= major,
        error2 == 2 * minor * k - 2 * major * n,
        -major < error2 <= major,
    ensures
        0 <= n <= minor,
{
    assert(0 <= n <= minor) by (nonlinear_arith)
        requires
            0 <= k < major,
            0 <= minor <= major,
            -major < 2 * minor * k - 2 * major * n <= major,
    ;
}

fn span(a: i64, b: i64) -> (r: i64)
    requires
        i32::MIN <= a <= i32::MAX,
        i32::MIN <= b <= i32::MAX,
    ensures
        r == distance(a as int, b as int),
{
    if a >= b {
        a - b
    } else {
        b - a
    }
}

impl Renderer {
    /// Draws the line from `(x0, y0)` to `(x1, y1)` in `color`: every pixel
    /// of the segment that lies in the buffer takes the colour, and nothing
    /// else changes.
    pub fn line(&mut self, x0: i32, y0: i32, x1: i32, y1: i32, color: u32)
        requires
            old(self).wf(),
        ensures
            final(self).wf(),
            final(self).width == old(self).width,
            final(self).height == old(self).height,
            final(self).zbuf@ == old(self).zbuf@,
            forall|x: int, y: int|
                old(self).in_view(x, y) ==> #[trigger] final(self).color_at(x, y) == if segment(
                    x0,
                    y0,
                    x1,
                    y1,
                ).covers(x, y) {
                    color
                } else {
                    old(self).color_at(x, y)
                },
    {
        let ghost seg = segment(x0, y0, x1, y1);
        let ghost before = *self;
        let steep = span(x0 as i64, x1 as i64) < span(y0 as i64, y1 as i64);
        let (mut a0, mut b0, mut a1, mut b1): (i64, i64, i64, i64) = if steep {
            (y0 as i64, x0 as i64, y1 as i64, x1 as i64)
        } else {
            (x0 as i64, y0 as i64, x1 as i64, y1 as i64)
        };
        if a0 > a1 {
            let (ta, tb) = (a0, b0);
            a0 = a1;
            b0 = b1;
            a1 = ta;
            b1 = tb;
        }
        assert(seg.start() == (a0 as int, b0 as int));
        assert(seg.end() == (a1 as int, b1 as int));
        let da: i64 = a1 - a0;
        let db: i64 = span(b0, b1);
        assert(da == seg.len());
        let derror2: i64 = db * 2;
        let mut error2: i64 = 0;
        let mut b: i64 = b0;
        let mut a: i64 = a0;
        let ghost mut n: int = 0;
        while a < a1
            invariant
                before.wf(),
                self.wf(),
                self.width == before.width,
                self.height == before.height,
                self.zbuf@ == before.zbuf@,
                seg == segment(x0, y0, x1, y1),
                seg.start() == (a0 as int, b0 as int),
                seg.end() == (a1 as int, b1 as int),
                seg.steep() == steep,
                i32::MIN <= a0 <= a <= a1 <= i32::MAX,
                i32::MIN <= b0 <= i32::MAX,
                i32::MIN <= b1 <= i32::MAX,
                da == a1 - a0,
                da == seg.len(),
                db == distance(b0 as int, b1 as int),
                0 <= db <= da,
                derror2 == 2 * db,
                error2 == 2 * db * (a - a0) - 2 * da * n,
                a < a1 ==> -da < error2 <= da,
                a < a1 ==> 0 <= n <= db,
                b == if b1 > b0 {
                    b0 + n
                } else {
                    b0 - n
                },
                forall|x: int, y: int|
                    before.in_view(x, y) ==> #[trigger] self.color_at(x, y) == if exists|k: int|
                        0 <= k < a - a0 && #[trigger] seg.pixel(k) == (x, y) {
                        color
                    } else {
                        before.color_at(x, y)
                    },
            decreases a1 - a,
        {
            let ghost k = a - a0;
            let ghost prev = *self;
            let ghost prev_error = error2 as int;
            let ghost prev_n = n;
            proof {
                lemma_minor_steps(k, da as int, db as int, n, error2 as int);
                assert(seg.pixel(k) == if steep {
                    (b as int, a as int)
                } else {
                    (a as int, b as int)
                });
            }
            if steep {
                self.pixel(b as i32, a as i32, color);
            } else {
                self.pixel(a as i32, b as i32, color);
            }
            error2 += derror2;
            if error2 > da {
                b += if b1 > b0 {
                    1
                } else {
                    -1
                };
                error2 -= da * 2;
                proof {
                    n = n + 1;
                }
            }
            a += 1;
            proof {
                assert(error2 == 2 * db * (a - a0) - 2 * da * n) by (nonlinear_arith)
                    requires
                        prev_error == 2 * db * k - 2 * da * prev_n,
                        a - a0 == k + 1,
                        (n == prev_n && error2 == prev_error + 2 * db) || (n == prev_n + 1 && error2
                            == prev_error + 2 * db - 2 * da),
                ;
                if a < a1 {
                    lemma_minor_bound(a - a0, da as int, db as int, n, error2 as int);
                }
                let (qx, qy) = seg.pixel(k);
                assert forall|x: int, y: int| before.in_view(x, y) implies #[trigger] self.color_at(
                    x,
                    y,
                ) == if exists|j: int| 0 <= j < k + 1 && #[trigger] seg.pixel(j) == (x, y) {
                    color
                } else {
                    before.color_at(x, y)
                } by {
                    let earlier = exists|j: int| 0 <= j < k && #[trigger] seg.pixel(j) == (x, y);
                    let now = exists|j: int| 0 <= j < k + 1 && #[trigger] seg.pixel(j) == (x, y);
                    lemma_cell_in_range(
                        before.width as int,
                        before.height as int,
                        x,
                        before.height - y - 1,
                    );
                    if (x, y) == (qx, qy) {
                        assert(seg.pixel(k) == (x, y));
                        assert(now);
                    } else {
                        if before.in_view(qx, qy) {
                            lemma_cell_in_range(
                                before.width as int,
                                before.height as int,
                                qx,
                                before.height - qy - 1,
                            );
                            lemma_cells_differ(
                                before.width as int,
                                x,
                                before.height - y - 1,
                                qx,
                                before.height - qy - 1,
                            );
                        }
                        assert(self.color_at(x, y) == prev.color_at(x, y));
                        if earlier {
                            let j = choose|j: int| 0 <= j < k && #[trigger] seg.pixel(j) == (x, y);
                            assert(0 <= j < k + 1 && seg.pixel(j) == (x, y));
                        }
                        if now {
                            let j = choose|j: int|
                                0 <= j < k + 1 && #[trigger] seg.pixel(j) == (x, y);
                            assert(j != k);
                            assert(0 <= j < k && seg.pixel(j) == (x, y));
                        }
                    }
                }
            }
        }
    }

    /// Draws the outline of the triangle `t0`, `t1`, `t2` in `color`: the
    /// three lines from each corner to the next.
    pub fn triangle(&mut self, t0: Vector2i, t1: Vector2i, t2: Vector2i, color: u32)
        requires
            old(self).wf(),
        ensures
            final(self).wf(),
            final(self).width == old(self).width,
            final(self).height == old(self).height,
            final(self).zbuf@ == old(self).zbuf@,
            forall|x: int, y: int|
                old(self).in_view(x, y) ==> #[trigger] final(self).color_at(x, y) == if segment(
                    t0.x,
                    t0.y,
                    t1.x,
                    t1.y,
                ).covers(x, y) || segment(t1.x, t1.y, t2.x, t2.y).covers(x, y) || segment(
                    t2.x,
                    t2.y,
                    t0.x,
                    t0.y,
                ).covers(x, y) {
                    color
                } else {
                    old(self).color_at(x, y)
                },
    {
        self.line(t0.x, t0.y, t1.x, t1.y, color);
        self.line(t1.x, t1.y, t2.x, t2.y, color);
        self.line(t2.x, t2.y, t0.x, t0.y, color);
    }
}

} // verus!
