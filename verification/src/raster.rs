//! Triangle traversal: the bounding box of a triangle on the pixel grid, the
//! sign test of a pixel's weights, the depth test, and the loop that offers
//! every pixel of the box to the caller's coverage and shading stages.
use crate::depth::{below_zero, depth_greater, greater, is_below_zero, is_nan, rank};
use crate::geometry::Vector2i;
use crate::grid::{lemma_cell_in_range, lemma_cells_differ, lemma_index_is_cell};
use crate::renderer::Renderer;
use crate::util::buf_index_yinvert;
use vstd::prelude::*;

verus! {

/// The smaller of two integers.
pub open spec fn lesser(a: int, b: int) -> int {
    if a <= b {
        a
    } else {
        b
    }
}

/// The larger of two integers.
pub open spec fn larger(a: int, b: int) -> int {
    if a >= b {
        a
    } else {
        b
    }
}

fn least(a: i32, b: i32) -> (r: i32)
    ensures
        r == lesser(a as int, b as int),
{
    if a <= b {
        a
    } else {
        b
    }
}

fn greatest(a: i32, b: i32) -> (r: i32)
    ensures
        r == larger(a as int, b as int),
{
    if a >= b {
        a
    } else {
        b
    }
}

/// A rectangle of pixels, both corners included. It is empty when `max` lies
/// left of or below `min`.
#[derive(Clone, Copy, Debug, PartialEq, Eq, Structural)]
pub struct BoundingBox {
    pub min: Vector2i,
    pub max: Vector2i,
}

impl BoundingBox {
    /// Whether pixel `(x, y)` lies in the rectangle.
    pub open spec fn contains(&self, x: int, y: int) -> bool {
        self.min.x <= x <= self.max.x && self.min.y <= y <= self.max.y
    }
}

/// What the coverage stage says of a pixel: the weights of the three corners
/// at the pixel in screen space, as encoded numbers, the depth of the
/// fragment, and what the shading stage is to get, which the library hands
/// on unread.
pub struct Fragment<W> {
    pub screen: [u32; 3],
    pub depth: u32,
    pub weights: W,
}

/// Whether a pixel with these weights lies in the triangle: none of the
/// three is less than zero.
pub open spec fn inside(screen: Seq<u32>) -> bool {
    !below_zero(screen[0]) && !below_zero(screen[1]) && !below_zero(screen[2])
}

/// The weights minus one, one, one, which stand for a triangle without area,
/// are those of no pixel of the triangle.
pub proof fn lemma_no_area_is_outside()
    ensures
        !inside(seq![0xbf80_0000u32, 0x3f80_0000u32, 0x3f80_0000u32]),
{
    assert(0xbf80_0000u32 & 0x7fff_ffff == 0x3f80_0000 && 0xbf80_0000u32 & 0x8000_0000 != 0)
        by (bit_vector);
    assert(0u32 & 0x7fff_ffff == 0 && 0u32 & 0x8000_0000 == 0) by (bit_vector);
}

/// The sign test of the three weights of a pixel.
pub fn is_inside(screen: &[u32; 3]) -> (r: bool)
    ensures
        r == inside(screen@),
{
    !(is_below_zero(screen[0]) || is_below_zero(screen[1]) || is_below_zero(screen[2]))
}

/// Whether a fragment of depth `depth` passes the depth test against the
/// sample `stored`: it fails only where the stored sample is greater.
pub open spec fn passes(stored: u32, depth: u32) -> bool {
    !greater(stored, depth)
}

/// The depth sample and the colour of a pixel after a fragment was offered
/// to it. `stored` and `color` are what the pixel held, `covered` is the
/// fragment's depth where the pixel lies in the triangle, and `shaded` its
/// colour where the shading stage did not discard it.
pub open spec fn resolved(stored: u32, color: u32, covered: Option<u32>, shaded: Option<u32>) -> (
    u32,
    u32,
) {
    match (covered, shaded) {
        (Some(depth), Some(shade)) if passes(stored, depth) => (depth, shade),
        _ => (stored, color),
    }
}

/// Whether `(after_depth, after_color)` is what pixel `(x, y)` holds once the
/// two stages have run on it, `c` being what `cover` returned for the pixel
/// and `s` what `shade` returned for the weights in `c`. The shading stage
/// runs only on a pixel that lies in the triangle and passes the depth test.
pub open spec fn drawn<W, C: Fn(i32, i32) -> Fragment<W>, S: Fn(W) -> Option<u32>>(
    cover: C,
    shade: S,
    x: i32,
    y: i32,
    stored: u32,
    color: u32,
    after_depth: u32,
    after_color: u32,
    c: Fragment<W>,
    s: Option<u32>,
) -> bool {
    &&& call_ensures(cover, (x, y), c)
    &&& if inside(c.screen@) && passes(stored, c.depth) {
        &&& call_ensures(shade, (c.weights,), s)
        &&& (after_depth, after_color) == resolved(stored, color, Some(c.depth), s)
    } else {
        (after_depth, after_color) == (stored, color)
    }
}

impl Renderer {
    /// The box that [`Renderer::bounding_box`] computes: the smallest floor
    /// and the largest ceiling of the three points on each axis, clamped to
    /// the pixels of the buffer.
    pub open spec fn clamped_box(&self, floors: Seq<Vector2i>, ceils: Seq<Vector2i>) -> BoundingBox {
        let w = self.width - 1;
        let h = self.height - 1;
        BoundingBox {
            min: Vector2i {
                x: larger(0, lesser(w, lesser(floors[0].x as int, lesser(floors[1].x as int, floors[2].x as int)))) as i32,
                y: larger(0, lesser(h, lesser(floors[0].y as int, lesser(floors[1].y as int, floors[2].y as int)))) as i32,
            },
            max: Vector2i {
                x: lesser(w, larger(0, larger(ceils[0].x as int, larger(ceils[1].x as int, ceils[2].x as int)))) as i32,
                y: lesser(h, larger(0, larger(ceils[0].y as int, larger(ceils[1].y as int, ceils[2].y as int)))) as i32,
            },
        }
    }

    /// The pixels that a triangle can touch. `floors[i]` and `ceils[i]` are
    /// the coordinates of its `i`-th corner rounded down and up.
    pub fn bounding_box(&self, floors: &[Vector2i; 3], ceils: &[Vector2i; 3]) -> (b: BoundingBox)
        requires
            self.wf(),
        ensures
            b == self.clamped_box(floors@, ceils@),
            0 <= b.min.x && 0 <= b.min.y,
            b.max.x < self.width && b.max.y < self.height,
    {
        let w: i32 = self.width - 1;
        let h: i32 = self.height - 1;
        let mut bboxmin = Vector2i::new(w, h);
        let mut bboxmax = Vector2i::new(0, 0);
        bboxmin.x = greatest(0, least(bboxmin.x, floors[0].x));
        bboxmin.y = greatest(0, least(bboxmin.y, floors[0].y));
        bboxmax.x = least(w, greatest(bboxmax.x, ceils[0].x));
        bboxmax.y = least(h, greatest(bboxmax.y, ceils[0].y));
        bboxmin.x = greatest(0, least(bboxmin.x, floors[1].x));
        bboxmin.y = greatest(0, least(bboxmin.y, floors[1].y));
        bboxmax.x = least(w, greatest(bboxmax.x, ceils[1].x));
        bboxmax.y = least(h, greatest(bboxmax.y, ceils[1].y));
        bboxmin.x = greatest(0, least(bboxmin.x, floors[2].x));
        bboxmin.y = greatest(0, least(bboxmin.y, floors[2].y));
        bboxmax.x = least(w, greatest(bboxmax.x, ceils[2].x));
        bboxmax.y = least(h, greatest(bboxmax.y, ceils[2].y));
        BoundingBox { min: bboxmin, max: bboxmax }
    }

    /// The depth test of pixel `(x, y)` for a fragment of depth `depth`.
    pub fn depth_test(&self, x: i32, y: i32, depth: u32) -> (r: bool)
        requires
            self.wf(),
            self.has_depth(x as int, y as int),
        ensures
            r == passes(self.depth_at(x as int, y as int), depth),
    {
        proof {
            lemma_cell_in_range(self.width as int, self.height as int, x as int, self.height - y);
        }
        let zindex = buf_index_yinvert(x as usize, y as usize, self.width as usize, self.height as usize);
        !depth_greater(self.zbuf[zindex], depth)
    }

    /// Records a fragment that passed: its depth becomes the sample of pixel
    /// `(x, y)` and its colour the colour of the pixel.
    pub fn put_fragment(&mut self, x: i32, y: i32, depth: u32, color: u32)
        requires
            old(self).wf(),
            old(self).has_depth(x as int, y as int),
        ensures
            final(self).wf(),
            final(self).width == old(self).width,
            final(self).height == old(self).height,
            final(self).zbuf@ == old(self).zbuf@.update(old(self).depth_index(x as int, y as int), depth),
            final(self).buf@ == old(self).buf@.update(old(self).color_index(x as int, y as int), color),
    {
        proof {
            lemma_cell_in_range(self.width as int, self.height as int, x as int, self.height - y);
        }
        let zindex = buf_index_yinvert(x as usize, y as usize, self.width as usize, self.height as usize);
        self.zbuf[zindex] = depth;
        self.pixel(x, y, color);
    }
}

impl Renderer {
    /// Whether the traversal of `bbox` offers pixel `(x, y)` to the stages:
    /// the pixel lies in the box and has a depth sample.
    pub open spec fn visits(&self, bbox: BoundingBox, x: int, y: int) -> bool {
        bbox.contains(x, y) && self.has_depth(x, y)
    }

    /// Rasterizes one triangle.
    ///
    /// `floors` and `ceils` are the screen coordinates of its corners rounded
    /// down and up. Every pixel of their clamped bounding box that has a
    /// depth sample is offered once to `cover`, which returns the weights of
    /// the corners at the pixel and the depth of the fragment. A pixel with a
    /// weight below zero lies outside the triangle and is left alone. A
    /// fragment inside that passes the depth test is handed to `shade`, which
    /// returns its colour, or `None` to discard it. A fragment that was not
    /// discarded is recorded.
    ///
    /// Nothing else changes. The clauses on what stays reach every cell of
    /// the two buffers that no visited pixel owns: the depth buffer has a
    /// row, addressed as row `height`, that belongs to no pixel. So a
    /// triangle with none of the offered pixels inside leaves both buffers
    /// as they were.
    pub fn triangle_shade<W, C: Fn(i32, i32) -> Fragment<W>, S: Fn(W) -> Option<u32>>(
        &mut self,
        floors: &[Vector2i; 3],
        ceils: &[Vector2i; 3],
        cover: C,
        shade: S,
    )
        requires
            old(self).wf(),
            forall|x: i32, y: i32| call_requires(cover, (x, y)),
            forall|w: W| call_requires(shade, (w,)),
        ensures
            final(self).wf(),
            final(self).width == old(self).width,
            final(self).height == old(self).height,
            forall|x: i32, y: i32| #[trigger]
                old(self).visits(old(self).clamped_box(floors@, ceils@), x as int, y as int)
                    ==> exists|c: Fragment<W>, s: Option<u32>|
                    drawn(
                        cover,
                        shade,
                        x,
                        y,
                        old(self).depth_at(x as int, y as int),
                        old(self).color_at(x as int, y as int),
                        final(self).depth_at(x as int, y as int),
                        final(self).color_at(x as int, y as int),
                        c,
                        s,
                    ),
            forall|x: int, y: int|
                old(self).in_view(x, y) && !#[trigger] old(self).visits(
                    old(self).clamped_box(floors@, ceils@),
                    x,
                    y,
                ) ==> final(self).color_at(x, y) == old(self).color_at(x, y),
            forall|x: int, y: int|
                0 <= x < old(self).width && 1 <= y <= old(self).height && !#[trigger] old(self).visits(
                    old(self).clamped_box(floors@, ceils@),
                    x,
                    y,
                ) ==> final(self).depth_at(x, y) == old(self).depth_at(x, y),
            (forall|x: i32, y: i32, c: Fragment<W>|
                old(self).visits(old(self).clamped_box(floors@, ceils@), x as int, y as int)
                    && #[trigger] call_ensures(cover, (x, y), c) ==> !inside(c.screen@)) ==> final(self).buf@
                == old(self).buf@ && final(self).zbuf@ == old(self).zbuf@,
    {
        let bbox = self.bounding_box(floors, ceils);
        let ghost before = *self;
        let mut x: i32 = bbox.min.x;
        while x <= bbox.max.x
            invariant
                before.wf(),
                self.wf(),
                self.width == before.width,
                self.height == before.height,
                0 <= bbox.min.x <= x,
                0 <= bbox.min.y,
                bbox.max.x < self.width,
                bbox.max.y < self.height,
                forall|x: i32, y: i32| call_requires(cover, (x, y)),
                forall|w: W| call_requires(shade, (w,)),
                forall|px: i32, py: i32| #[trigger]
                    before.visits(bbox, px as int, py as int) && px < x ==> exists|
                        c: Fragment<W>,
                        s: Option<u32>,
                    |
                        drawn(
                            cover,
                            shade,
                            px,
                            py,
                            before.depth_at(px as int, py as int),
                            before.color_at(px as int, py as int),
                            self.depth_at(px as int, py as int),
                            self.color_at(px as int, py as int),
                            c,
                            s,
                        ),
                forall|px: int, py: int|
                    before.in_view(px, py) && !(#[trigger] before.visits(bbox, px, py) && px < x)
                        ==> self.color_at(px, py) == before.color_at(px, py),
                forall|px: int, py: int|
                    0 <= px < before.width && 1 <= py <= before.height && !(#[trigger] before.visits(
                        bbox,
                        px,
                        py,
                    ) && px < x) ==> self.depth_at(px, py)
                        == before.depth_at(px, py),
            decreases bbox.max.x + 1 - x,
        {
            let mut y: i32 = bbox.min.y;
            while y <= bbox.max.y
                invariant
                    before.wf(),
                    self.wf(),
                    self.width == before.width,
                    self.height == before.height,
                    0 <= bbox.min.x <= x <= bbox.max.x,
                    0 <= bbox.min.y <= y,
                    bbox.max.x < self.width,
                    bbox.max.y < self.height,
                    forall|x: i32, y: i32| call_requires(cover, (x, y)),
                    forall|w: W| call_requires(shade, (w,)),
                    forall|px: i32, py: i32| #[trigger]
                        before.visits(bbox, px as int, py as int) && (px < x || (px == x && py < y))
                            ==> exists|c: Fragment<W>, s: Option<u32>|
                            drawn(
                                cover,
                                shade,
                                px,
                                py,
                                before.depth_at(px as int, py as int),
                                before.color_at(px as int, py as int),
                                self.depth_at(px as int, py as int),
                                self.color_at(px as int, py as int),
                                c,
                                s,
                            ),
                    forall|px: int, py: int|
                        before.in_view(px, py) && !(#[trigger] before.visits(bbox, px, py) && (px < x
                            || (px == x && py < y))) ==> self.color_at(px, py)
                            == before.color_at(px, py),
                    forall|px: int, py: int|
                        0 <= px < before.width && 1 <= py <= before.height && !(
                        #[trigger] before.visits(bbox, px, py) && (px < x || (px == x && py < y)))
                            ==> self.depth_at(px, py)
                            == before.depth_at(px, py),
                decreases bbox.max.y + 1 - y,
            {
                if y >= 1 {
                    let ghost prev = *self;
                    let ghost zi = before.depth_index(x as int, y as int);
                    let ghost ci = before.color_index(x as int, y as int);
                    proof {
                        lemma_cell_in_range(
                            self.width as int,
                            self.height as int,
                            x as int,
                            self.height - y,
                        );
                        lemma_cell_in_range(
                            self.width as int,
                            self.height as int,
                            x as int,
                            self.height - y - 1,
                        );
                        assert(before.visits(bbox, x as int, y as int));
                        assert(prev.depth_at(x as int, y as int) == before.depth_at(x as int, y as int));
                        assert(before.in_view(x as int, y as int));
                        assert(prev.color_at(x as int, y as int) == before.color_at(x as int, y as int));
                    }
                    let fragment = cover(x, y);
                    let ghost offered = fragment;
                    let ghost mut shaded: Option<u32> = None;
                    if is_inside(&fragment.screen) && self.depth_test(x, y, fragment.depth) {
                        let depth = fragment.depth;
                        let s = shade(fragment.weights);
                        proof {
                            shaded = s;
                        }
                        match s {
                            Some(color) => {
                                self.put_fragment(x, y, depth, color);
                            },
                            None => {},
                        }
                    }
                    proof {
                        assert(drawn(
                            cover,
                            shade,
                            x,
                            y,
                            before.depth_at(x as int, y as int),
                            before.color_at(x as int, y as int),
                            self.depth_at(x as int, y as int),
                            self.color_at(x as int, y as int),
                            offered,
                            shaded,
                        ));
                        assert forall|px: int, py: int|
                            0 <= px < before.width && 1 <= py <= before.height && (px != x || py
                                != y) implies #[trigger] self.depth_at(px, py) == prev.depth_at(
                            px,
                            py,
                        ) by {
                            lemma_cells_differ(
                                before.width as int,
                                px,
                                before.height - py,
                                x as int,
                                before.height - y,
                            );
                            lemma_cell_in_range(
                                before.width as int,
                                before.height as int,
                                px,
                                before.height - py,
                            );
                        }
                        assert forall|px: int, py: int|
                            0 <= px < before.width && 0 <= py < before.height && (px != x || py
                                != y) implies #[trigger] self.color_at(px, py) == prev.color_at(
                            px,
                            py,
                        ) by {
                            lemma_cells_differ(
                                before.width as int,
                                px,
                                before.height - py - 1,
                                x as int,
                                before.height - y - 1,
                            );
                            lemma_cell_in_range(
                                before.width as int,
                                before.height as int,
                                px,
                                before.height - py - 1,
                            );
                        }
                        assert forall|px: i32, py: i32| #[trigger]
                            before.visits(bbox, px as int, py as int) && (px < x || (px == x && py
                                < y + 1)) implies exists|c: Fragment<W>, s: Option<u32>|
                            drawn(
                                cover,
                                shade,
                                px,
                                py,
                                before.depth_at(px as int, py as int),
                                before.color_at(px as int, py as int),
                                self.depth_at(px as int, py as int),
                                self.color_at(px as int, py as int),
                                c,
                                s,
                            ) by {
                            if px == x && py == y {
                            } else {
                                let (c, s) = choose|c: Fragment<W>, s: Option<u32>|
                                    drawn(
                                        cover,
                                        shade,
                                        px,
                                        py,
                                        before.depth_at(px as int, py as int),
                                        before.color_at(px as int, py as int),
                                        prev.depth_at(px as int, py as int),
                                        prev.color_at(px as int, py as int),
                                        c,
                                        s,
                                    );
                                assert(self.depth_at(px as int, py as int) == prev.depth_at(
                                    px as int,
                                    py as int,
                                ));
                                assert(self.color_at(px as int, py as int) == prev.color_at(
                                    px as int,
                                    py as int,
                                ));
                                assert(drawn(
                                    cover,
                                    shade,
                                    px,
                                    py,
                                    before.depth_at(px as int, py as int),
                                    before.color_at(px as int, py as int),
                                    self.depth_at(px as int, py as int),
                                    self.color_at(px as int, py as int),
                                    c,
                                    s,
                                ));
                            }
                        }
                    }
                }
                y += 1;
            }
            x += 1;
        }
        proof {
            if forall|x: i32, y: i32, c: Fragment<W>|
                before.visits(bbox, x as int, y as int) && #[trigger] call_ensures(cover, (x, y), c)
                    ==> !inside(c.screen@) {
                assert forall|x: int, y: int| before.in_view(x, y) implies #[trigger] self.color_at(
                    x,
                    y,
                ) == before.color_at(x, y) by {
                    if before.visits(bbox, x, y) {
                        assert(before.visits(bbox, x as i32 as int, y as i32 as int));
                    }
                }
                assert forall|x: int, y: int|
                    0 <= x < before.width && 1 <= y <= before.height implies #[trigger] self.depth_at(
                    x,
                    y,
                ) == before.depth_at(x, y) by {
                    if before.visits(bbox, x, y) {
                        assert(before.visits(bbox, x as i32 as int, y as i32 as int));
                    }
                }
                lemma_same_cells(before, *self);
            }
        }
    }
}

/// Two buffers of one size that agree on the colour of every pixel, and on
/// every depth sample, the row that belongs to no pixel included, hold the
/// same cells.
pub proof fn lemma_same_cells(a: Renderer, b: Renderer)
    requires
        a.wf(),
        b.wf(),
        a.width == b.width,
        a.height == b.height,
        forall|x: int, y: int| a.in_view(x, y) ==> #[trigger] b.color_at(x, y) == a.color_at(x, y),
        forall|x: int, y: int|
            0 <= x < a.width && 1 <= y <= a.height ==> #[trigger] b.depth_at(x, y) == a.depth_at(
                x,
                y,
            ),
    ensures
        a.buf@ == b.buf@,
        a.zbuf@ == b.zbuf@,
{
    let w = a.width as int;
    let h = a.height as int;
    assert forall|i: int| 0 <= i < a.buf@.len() implies a.buf@[i] == b.buf@[i] by {
        lemma_index_is_cell(w, h, i);
        let x = i % w;
        let y = h - 1 - i / w;
        assert(a.in_view(x, y));
        assert(b.color_at(x, y) == a.color_at(x, y));
        assert(a.color_index(x, y) == i);
    }
    assert forall|i: int| 0 <= i < a.zbuf@.len() implies a.zbuf@[i] == b.zbuf@[i] by {
        lemma_index_is_cell(w, h, i);
        let x = i % w;
        let y = h - i / w;
        assert(b.depth_at(x, y) == a.depth_at(x, y));
        assert(a.depth_index(x, y) == i);
    }
}

/// What a pixel holds, as depth sample and colour, after the fragments
/// `offers` were offered to it in turn. An offer is a depth with the colour
/// that the shading stage gave it, or `None` where the stage discarded it.
pub open spec fn settled(stored: u32, color: u32, offers: Seq<(u32, Option<u32>)>) -> (u32, u32)
    decreases offers.len(),
{
    if offers.len() == 0 {
        (stored, color)
    } else {
        let prior = settled(stored, color, offers.drop_last());
        resolved(prior.0, prior.1, Some(offers.last().0), offers.last().1)
    }
}

/// The depth sample that a pixel ends with is the greatest of the depth it
/// started with and the depths of the fragments that were offered to it and
/// not discarded, and it is one of them. This holds where none of them is a
/// NaN.
pub proof fn lemma_settled_is_greatest(stored: u32, color: u32, offers: Seq<(u32, Option<u32>)>)
    requires
        !is_nan(stored),
        forall|i: int| 0 <= i < offers.len() && offers[i].1 is Some ==> !is_nan(#[trigger] offers[i].0),
    ensures
        !is_nan(settled(stored, color, offers).0),
        rank(settled(stored, color, offers).0) >= rank(stored),
        forall|i: int|
            0 <= i < offers.len() && offers[i].1 is Some ==> rank(settled(stored, color, offers).0)
                >= rank(#[trigger] offers[i].0),
        settled(stored, color, offers).0 == stored || exists|i: int|
            0 <= i < offers.len() && offers[i].1 is Some && settled(stored, color, offers).0
                == #[trigger] offers[i].0,
    decreases offers.len(),
{
    if offers.len() > 0 {
        let front = offers.drop_last();
        lemma_settled_is_greatest(stored, color, front);
        let prior = settled(stored, color, front);
        let last = offers.last();
        let end = settled(stored, color, offers);
        assert forall|i: int| 0 <= i < offers.len() && offers[i].1 is Some implies rank(end.0)
            >= rank(#[trigger] offers[i].0) by {
            if i < front.len() {
                assert(front[i] == offers[i]);
            }
        }
        if end.0 != stored {
            if end.0 == prior.0 {
                let i = choose|i: int|
                    0 <= i < front.len() && front[i].1 is Some && prior.0 == #[trigger] front[i].0;
                assert(front[i] == offers[i]);
            } else {
                assert(offers[offers.len() - 1] == last);
            }
        }
    }
}


} // verus!
