//! Handing the buffers out: as bytes for a display surface, as colours for
//! a picture of the depth buffer, and as a texture.
use crate::depth::{depth_level, level};
use crate::geometry::Vector4u;
use crate::renderer::{DisplayBuffer, Renderer, Texture};
use crate::util::{color_bytes, color_from_vec4, packed, serialized};
use vstd::prelude::*;

verus! {

/// The grey that pictures a depth sample: the sample rounded toward zero in
/// each of red, green and blue, under full alpha. A sample of 256 or more is
/// not clamped and spills as [`packed`] says.
pub open spec fn depth_color(sample: u32) -> u32 {
    let z = level(sample) as u32;
    packed(Vector4u { x: z, y: z, z: z, w: 255 })
}

/// The colours of a depth buffer.
pub open spec fn depth_colors(samples: Seq<u32>) -> Seq<u32> {
    Seq::new(samples.len(), |i: int| depth_color(samples[i]))
}

impl Renderer {
    /// The colours that `draw` presents for `display_buffer`.
    pub open spec fn presented(&self, display_buffer: DisplayBuffer) -> Seq<u32> {
        match display_buffer {
            DisplayBuffer::Frame => self.buf@,
            DisplayBuffer::Depth => depth_colors(self.zbuf@),
        }
    }

    /// The depth buffer as a buffer of colours, one grey for each sample.
    pub fn zbuf_buf(&self) -> (colors: Vec<u32>)
        ensures
            colors@ == depth_colors(self.zbuf@),
    {
        let mut colors: Vec<u32> = Vec::new();
        let mut i: usize = 0;
        while i < self.zbuf.len()
            invariant
                i <= self.zbuf@.len(),
                colors@.len() == i,
                forall|j: int| 0 <= j < i ==> colors@[j] == depth_color(self.zbuf@[j]),
            decreases self.zbuf@.len() - i,
        {
            let z = depth_level(self.zbuf[i]);
            colors.push(color_from_vec4(Vector4u { x: z, y: z, z: z, w: 255 }));
            i += 1;
        }
        assert(colors@ =~= depth_colors(self.zbuf@));
        colors
    }

    /// Copies the buffer that `display_buffer` selects into `frame`, four
    /// bytes for each pixel: red, green, blue, alpha. The copy stops at the
    /// last pixel, or at the last whole group of four bytes that `frame` has
    /// room for; the bytes of `frame` behind that keep their values.
    pub fn draw(&self, frame: &mut [u8], display_buffer: DisplayBuffer)
        ensures
            final(frame)@.len() == old(frame)@.len(),
            ({
                let colors = self.presented(display_buffer);
                let n = if colors.len() <= old(frame)@.len() / 4 {
                    colors.len() as int
                } else {
                    old(frame)@.len() as int / 4
                };
                final(frame)@ == serialized(colors.take(n)) + old(frame)@.skip(4 * n)
            }),
    {
        match display_buffer {
            DisplayBuffer::Frame => {
                copy_colors(&self.buf, frame);
            },
            DisplayBuffer::Depth => {
                let zbuf = self.zbuf_buf();
                copy_colors(&zbuf, frame);
            },
        }
    }

    /// A copy of the colour buffer as a texture of the same size.
    pub fn snapshot(&self) -> (t: Texture)
        requires
            self.wf(),
        ensures
            t.wf(),
            t.width == self.width,
            t.height == self.height,
            t.buf@ == self.buf@,
    {
        let mut buf: Vec<u32> = Vec::new();
        let mut i: usize = 0;
        while i < self.buf.len()
            invariant
                i <= self.buf@.len(),
                buf@ == self.buf@.take(i as int),
            decreases self.buf@.len() - i,
        {
            buf.push(self.buf[i]);
            assert(buf@ =~= self.buf@.take(i + 1));
            i += 1;
        }
        assert(self.buf@.take(self.buf@.len() as int) =~= self.buf@);
        Texture { width: self.width as usize, height: self.height as usize, buf }
    }
}

fn copy_colors(colors: &Vec<u32>, frame: &mut [u8])
    ensures
        final(frame)@.len() == old(frame)@.len(),
        ({
            let n = if colors@.len() <= old(frame)@.len() / 4 {
                colors@.len() as int
            } else {
                old(frame)@.len() as int / 4
            };
            final(frame)@ == serialized(colors@.take(n)) + old(frame)@.skip(4 * n)
        }),
{
    let groups = frame.len() / 4;
    let n = if colors.len() <= groups {
        colors.len()
    } else {
        groups
    };
    let mut i: usize = 0;
    while i < n
        invariant
            i <= n,
            n <= colors@.len(),
            4 * n <= frame@.len() <= usize::MAX,
            frame@.len() == old(frame)@.len(),
            frame@ == serialized(colors@.take(i as int)) + old(frame)@.skip(4 * i),
        decreases n - i,
    {
        let b = color_bytes(colors[i]);
        let ghost prior = frame@;
        frame[4 * i] = b[0];
        frame[4 * i + 1] = b[1];
        frame[4 * i + 2] = b[2];
        frame[4 * i + 3] = b[3];
        proof {
            let next = colors@.take(i + 1);
            let goal = serialized(next) + old(frame)@.skip(4 * (i + 1));
            assert forall|j: int| 0 <= j < frame@.len() implies frame@[j] == goal[j] by {
                if j < 4 * i {
                    assert(prior[j] == serialized(colors@.take(i as int))[j]);
                    assert(colors@.take(i as int)[j / 4] == next[j / 4]);
                } else if j < 4 * (i + 1) {
                    assert(j / 4 == i as int);
                    assert(next[j / 4] == colors@[i as int]);
                } else {
                    assert(prior[j] == old(frame)@.skip(4 * i)[j - 4 * i]);
                }
            }
            assert(frame@ =~= goal);
        }
        i += 1;
    }
}

} // verus!
