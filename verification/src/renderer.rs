use crate::geometry::Vector4u;
use crate::grid::lemma_cell_in_range;
use crate::util::{buf_index, buf_index_yinvert, vec4_from_color, unpacked};
use vstd::prelude::*;

verus! {

/// Which of the two buffers of a [`Renderer`] is presented.
#[derive(Clone, Copy, Debug, PartialEq, Eq, Structural)]
pub enum DisplayBuffer {
    Frame,
    Depth,
}

/// Opaque black, the colour of a cleared pixel.
pub const BACKGROUND: u32 = 0x0000_00ff;

/// The depth sample of a cleared pixel: the encoding of zero.
pub const FARTHEST: u32 = 0;

/// A grid of packed colours, `width` texels to a row, the top row first.
pub struct Texture {
    pub width: usize,
    pub height: usize,
    pub buf: Vec<u32>,
}

impl Texture {
    /// There is one colour for each texel.
    pub open spec fn wf(&self) -> bool {
        self.buf@.len() == self.width * self.height
    }

    /// Whether the texture has a colour for column `x` of row `y`, rows
    /// counted from the top: what `lookup` asks of its caller.
    pub fn has(&self, x: usize, y: usize) -> (r: bool)
        ensures
            r == (y * self.width + x < self.buf@.len()),
    {
        let n = self.buf.len();
        assert(0 <= y * self.width) by (nonlinear_arith);
        match y.checked_mul(self.width) {
            Some(row) => match row.checked_add(x) {
                Some(index) => index < n,
                None => false,
            },
            None => false,
        }
    }

    /// Whether the texture has a colour for column `x` of the row that lies
    /// `height - y` rows below the top: what `lookup_yinvert` asks of its
    /// caller.
    pub fn has_yinvert(&self, x: usize, y: usize) -> (r: bool)
        ensures
            r == (y <= self.height && (self.height - y) * self.width + x < self.buf@.len()),
    {
        if y > self.height {
            return false;
        }
        self.has(x, self.height - y)
    }

    /// The colour at column `x` of row `y`, rows counted from the top.
    pub fn lookup(&self, x: usize, y: usize) -> (c: u32)
        requires
            y * self.width + x < self.buf@.len(),
        ensures
            c == self.buf@[y * self.width + x],
    {
        let n = self.buf.len();
        assert(0 <= y * self.width) by (nonlinear_arith);
        assert(y * self.width + x < n);
        let index = buf_index(x, y, self.width);
        self.buf[index]
    }

    /// The colour at column `x` of the row that lies `height - y` rows below
    /// the top: `y` counts upwards and row `height` is the top row.
    pub fn lookup_yinvert(&self, x: usize, y: usize) -> (c: u32)
        requires
            y <= self.height,
            (self.height - y) * self.width + x < self.buf@.len(),
        ensures
            c == self.buf@[(self.height - y) * self.width + x],
    {
        let n = self.buf.len();
        assert(0 <= (self.height - y) * self.width) by (nonlinear_arith)
            requires
                y <= self.height,
        ;
        assert((self.height - y) * self.width + x < n);
        let index = buf_index_yinvert(x, y, self.width, self.height);
        self.buf[index]
    }

    /// The channels of the colour at column `x` of row `y`.
    pub fn lookup_frag(&self, x: usize, y: usize) -> (v: Vector4u)
        requires
            y * self.width + x < self.buf@.len(),
        ensures
            v == unpacked(self.buf@[y * self.width + x]),
    {
        vec4_from_color(self.lookup(x, y))
    }
}

/// One corner of a face: where its position, its texture coordinate and its
/// normal stand in the arrays of a mesh.
#[derive(Clone, Copy, Debug, PartialEq, Eq, Structural)]
pub struct Index {
    pub vertex: usize,
    pub tex: usize,
    pub normal: usize,
}

impl Index {
    /// The corner with these three indices.
    pub fn new(vertex: usize, tex: usize, normal: usize) -> (r: Self)
        ensures
            r.vertex == vertex,
            r.tex == tex,
            r.normal == normal,
    {
        Self { vertex, tex, normal }
    }
}

/// A triangle, as its three corners.
pub struct Face {
    pub points: [Index; 3],
}

impl Face {
    /// The face with these three corners, in this order.
    pub fn new(first: Index, second: Index, third: Index) -> (r: Self)
        ensures
            r.points@ == seq![first, second, third],
    {
        Self { points: [first, second, third] }
    }
}

/// Three numbers of a mesh, as text: this library reads no number with a
/// fraction, and keeps them as the file writes them.
pub struct Coords {
    pub x: Vec<u8>,
    pub y: Vec<u8>,
    pub z: Vec<u8>,
}

/// Three numbers as contracts speak of them: each text a sequence of bytes.
pub struct CoordsView {
    pub x: Seq<u8>,
    pub y: Seq<u8>,
    pub z: Seq<u8>,
}

impl CoordsView {
    /// Three times the text `0`.
    pub open spec fn zero() -> CoordsView {
        CoordsView { x: seq![48u8], y: seq![48u8], z: seq![48u8] }
    }
}

impl View for Coords {
    type V = CoordsView;

    open spec fn view(&self) -> CoordsView {
        CoordsView { x: self.x@, y: self.y@, z: self.z@ }
    }
}

/// The texts held by an array of a mesh.
pub open spec fn coords_texts(v: Seq<Coords>) -> Seq<CoordsView> {
    Seq::new(v.len(), |i: int| v[i]@)
}

/// A triangle mesh: positions, texture coordinates and normals, and the
/// corners of its faces, three for each face in turn. The element at index 0
/// of each array is not part of the model: the indices of a corner count
/// from 1.
pub struct Mesh {
    pub vs: Vec<Coords>,
    pub tex: Vec<Coords>,
    pub ns: Vec<Coords>,
    pub indexes: Vec<Index>,
}

/// A mesh as contracts speak of it.
pub struct MeshView {
    pub vs: Seq<CoordsView>,
    pub tex: Seq<CoordsView>,
    pub ns: Seq<CoordsView>,
    pub indexes: Seq<Index>,
}

impl MeshView {
    /// The mesh without a face, with the one element in each array that
    /// stands before the first.
    pub open spec fn empty() -> MeshView {
        MeshView {
            vs: seq![CoordsView::zero()],
            tex: seq![CoordsView::zero()],
            ns: seq![CoordsView::zero()],
            indexes: Seq::<Index>::empty(),
        }
    }

    /// Whether the mesh has the elements that the corner `p` names.
    pub open spec fn names_elements(self, p: Index) -> bool {
        p.vertex < self.vs.len() && p.tex < self.tex.len() && p.normal < self.ns.len()
    }

    /// Whether every corner names elements that the mesh has.
    pub open spec fn in_range(self) -> bool {
        forall|i: int| 0 <= i < self.indexes.len() ==> self.names_elements(#[trigger] self.indexes[i])
    }

    /// Whether the corners make whole faces and each array has its element
    /// at index 0.
    pub open spec fn whole(self) -> bool {
        &&& self.indexes.len() % 3 == 0
        &&& self.vs.len() >= 1
        &&& self.tex.len() >= 1
        &&& self.ns.len() >= 1
    }
}

impl View for Mesh {
    type V = MeshView;

    open spec fn view(&self) -> MeshView {
        MeshView {
            vs: coords_texts(self.vs@),
            tex: coords_texts(self.tex@),
            ns: coords_texts(self.ns@),
            indexes: self.indexes@,
        }
    }
}

impl Mesh {
    /// The faces are whole and no corner names an element that is not
    /// there.
    pub open spec fn wf(&self) -> bool {
        self@.whole() && self@.in_range()
    }

    /// The number of faces.
    pub fn face_count(&self) -> (n: usize)
        ensures
            n == self.indexes@.len() / 3,
    {
        self.indexes.len() / 3
    }

    /// The `i`-th face.
    pub fn face(&self, i: usize) -> (f: Face)
        requires
            self.wf(),
            i < self.indexes@.len() / 3,
        ensures
            f.points@ == self.indexes@.subrange(3 * i, 3 * i + 3),
            forall|k: int| 0 <= k < 3 ==> self@.names_elements(#[trigger] f.points@[k]),
    {
        let n = self.indexes.len();
        let f = Face::new(self.indexes[3 * i], self.indexes[3 * i + 1], self.indexes[3 * i + 2]);
        assert(f.points@ =~= self.indexes@.subrange(3 * i, 3 * i + 3));
        f
    }
}

/// A colour buffer and a depth buffer of the same size.
///
/// Callers address pixels with `y` pointing up. The colour of pixel `(x, y)`
/// is stored at [`Renderer::color_index`], its depth sample at
/// [`Renderer::depth_index`], one row further down: the pixels of row 0 have
/// no depth sample.
pub struct Renderer {
    pub width: i32,
    pub height: i32,
    pub buf: Vec<u32>,
    pub zbuf: Vec<u32>,
}

impl Renderer {
    /// Both buffers hold `width * height` cells, and that count fits the
    /// type of the sides.
    pub open spec fn wf(&self) -> bool {
        &&& 0 <= self.width
        &&& 0 <= self.height
        &&& self.width * self.height <= i32::MAX
        &&& self.buf@.len() == self.width * self.height
        &&& self.zbuf@.len() == self.width * self.height
    }

    /// Whether `(x, y)` is a pixel of the buffer.
    pub open spec fn in_view(&self, x: int, y: int) -> bool {
        0 <= x < self.width && 0 <= y < self.height
    }

    /// Where the colour of pixel `(x, y)` stands in `buf`.
    pub open spec fn color_index(&self, x: int, y: int) -> int {
        (self.height - y - 1) * self.width + x
    }

    /// Where the depth sample of pixel `(x, y)` stands in `zbuf`.
    pub open spec fn depth_index(&self, x: int, y: int) -> int {
        (self.height - y) * self.width + x
    }

    /// The colour of pixel `(x, y)`.
    pub open spec fn color_at(&self, x: int, y: int) -> u32 {
        self.buf@[self.color_index(x, y)]
    }

    /// The depth sample of pixel `(x, y)`.
    pub open spec fn depth_at(&self, x: int, y: int) -> u32 {
        self.zbuf@[self.depth_index(x, y)]
    }

    /// Whether `(x, y)` is a pixel that has a depth sample.
    pub open spec fn has_depth(&self, x: int, y: int) -> bool {
        0 <= x < self.width && 1 <= y < self.height
    }

    /// Every pixel is opaque black and every depth sample is zero.
    pub open spec fn is_clear(&self) -> bool {
        &&& forall|i: int| 0 <= i < self.buf@.len() ==> self.buf@[i] == BACKGROUND
        &&& forall|i: int| 0 <= i < self.zbuf@.len() ==> self.zbuf@[i] == FARTHEST
    }

    /// Whether a buffer can have `width` by `height` pixels: what `new` asks
    /// of its caller.
    pub fn fits(width: i32, height: i32) -> (r: bool)
        ensures
            r == (0 <= width && 0 <= height && width * height <= i32::MAX),
    {
        if width < 0 || height < 0 {
            return false;
        }
        assert(0 <= width * height <= 0x7fff_ffff * 0x7fff_ffff) by (nonlinear_arith)
            requires
                0 <= width <= 0x7fff_ffff,
                0 <= height <= 0x7fff_ffff,
        ;
        width as i64 * height as i64 <= i32::MAX as i64
    }

    /// Whether both buffers have the size that the width and the height
    /// give: what the drawing functions ask of their caller.
    pub fn is_well_formed(&self) -> (r: bool)
        ensures
            r == self.wf(),
    {
        if !Self::fits(self.width, self.height) {
            return false;
        }
        assert(0 <= self.width * self.height) by (nonlinear_arith)
            requires
                0 <= self.width,
                0 <= self.height,
        ;
        let cells: usize = (self.width * self.height) as usize;
        self.buf.len() == cells && self.zbuf.len() == cells
    }

    /// A cleared buffer of `width` by `height` pixels.
    pub fn new(width: i32, height: i32) -> (r: Self)
        requires
            0 <= width,
            0 <= height,
            width * height <= i32::MAX,
        ensures
            r.wf(),
            r.width == width,
            r.height == height,
            r.is_clear(),
    {
        assert(0 <= width * height) by (nonlinear_arith)
            requires
                0 <= width,
                0 <= height,
        ;
        let n: usize = (width * height) as usize;
        Self { width, height, buf: vec![BACKGROUND; n], zbuf: vec![FARTHEST; n] }
    }

    /// Resets every pixel to opaque black and every depth sample to zero.
    pub fn clear(&mut self)
        ensures
            final(self).width == old(self).width,
            final(self).height == old(self).height,
            final(self).buf@.len() == old(self).buf@.len(),
            final(self).zbuf@.len() == old(self).zbuf@.len(),
            final(self).is_clear(),
    {
        let n = self.buf.len();
        let mut i: usize = 0;
        while i < n
            invariant
                i <= n,
                n == self.buf@.len(),
                self.width == old(self).width,
                self.height == old(self).height,
                self.buf@.len() == old(self).buf@.len(),
                self.zbuf@ == old(self).zbuf@,
                forall|j: int| 0 <= j < i ==> self.buf@[j] == BACKGROUND,
            decreases n - i,
        {
            self.buf[i] = BACKGROUND;
            i += 1;
        }
        let m = self.zbuf.len();
        let mut k: usize = 0;
        while k < m
            invariant
                k <= m,
                m == self.zbuf@.len(),
                self.width == old(self).width,
                self.height == old(self).height,
                self.buf@.len() == old(self).buf@.len(),
                self.zbuf@.len() == old(self).zbuf@.len(),
                forall|j: int| 0 <= j < self.buf@.len() ==> self.buf@[j] == BACKGROUND,
                forall|j: int| 0 <= j < k ==> self.zbuf@[j] == FARTHEST,
            decreases m - k,
        {
            self.zbuf[k] = FARTHEST;
            k += 1;
        }
    }

    /// Sets the colour of pixel `(x, y)`; a pixel outside the buffer is
    /// clipped, and nothing changes.
    pub fn pixel(&mut self, x: i32, y: i32, color: u32)
        requires
            old(self).wf(),
        ensures
            final(self).wf(),
            final(self).width == old(self).width,
            final(self).height == old(self).height,
            final(self).zbuf@ == old(self).zbuf@,
            old(self).in_view(x as int, y as int) ==> final(self).buf@ == old(self).buf@.update(
                old(self).color_index(x as int, y as int),
                color,
            ),
            !old(self).in_view(x as int, y as int) ==> final(self).buf@ == old(self).buf@,
    {
        if x < 0 || x >= self.width || y < 0 || y >= self.height {
            return ;
        }
        proof {
            lemma_cell_in_range(self.width as int, self.height as int, x as int, self.height - y - 1);
        }
        let index = buf_index(x, self.height - y - 1, self.width);
        self.buf[index] = color;
    }
}

/// Two cleared buffers of one size hold the same cells: clearing a buffer
/// gives what a new buffer holds, whatever was drawn before.
pub proof fn lemma_clear_is_new(a: Renderer, b: Renderer)
    requires
        a.wf(),
        b.wf(),
        a.width == b.width,
        a.height == b.height,
        a.is_clear(),
        b.is_clear(),
    ensures
        a.buf@ == b.buf@,
        a.zbuf@ == b.zbuf@,
{
    assert(a.buf@ =~= b.buf@);
    assert(a.zbuf@ =~= b.zbuf@);
}

} // verus!
