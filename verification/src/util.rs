use core::ops::{Add, Mul, Sub};
use crate::codec::{frame_size, png_frame, png_frame_size, png_rgba8, read_frame, write_rgba8};
use crate::geometry::Vector4u;
use crate::renderer::Texture;
use vstd::prelude::*;
use vstd::std_specs::ops::{AddSpec, MulSpec, SubSpec};

verus! {

/// Conversion of a coordinate type into another integer type.
///
/// Implementors say in `cast_spec` which value `cast` returns.
pub trait Cast<T> {
    spec fn cast_spec(&self) -> T;

    fn cast(&self) -> (r: T)
        ensures
            r == self.cast_spec(),
    ;
}

impl Cast<usize> for i32 {
    /// Sign extension followed by reinterpretation, as `as` does it.
    open spec fn cast_spec(&self) -> usize {
        *self as usize
    }

    fn cast(&self) -> (r: usize) {
        #[verifier::truncate]
        (*self as usize)
    }
}

impl Cast<usize> for usize {
    open spec fn cast_spec(&self) -> usize {
        *self
    }

    fn cast(&self) -> (r: usize) {
        *self
    }
}

/// Row-major index of the cell in column `x` of row `y`, in a buffer whose
/// rows are `stride` cells long.
pub fn buf_index<T: Mul<Output = T> + Add<Output = T> + Cast<usize>>(x: T, y: T, stride: T) -> (r: usize)
    requires
        <T as MulSpec>::obeys_mul_spec(),
        <T as AddSpec>::obeys_add_spec(),
        y.mul_req(stride),
        y.mul_spec(stride).add_req(x),
    ensures
        r == y.mul_spec(stride).add_spec(x).cast_spec(),
{
    (y * stride + x).cast()
}

/// Row-major index of the cell in column `x`, counting rows downwards from
/// row `height`: row `y` lies `height - y` rows below the start of the buffer.
pub fn buf_index_yinvert<T: Mul<Output = T> + Add<Output = T> + Sub<Output = T> + Cast<usize>>(
    x: T,
    y: T,
    stride: T,
    height: T,
) -> (r: usize)
    requires
        <T as MulSpec>::obeys_mul_spec(),
        <T as AddSpec>::obeys_add_spec(),
        <T as SubSpec>::obeys_sub_spec(),
        height.sub_req(y),
        height.sub_spec(y).mul_req(stride),
        height.sub_spec(y).mul_spec(stride).add_req(x),
    ensures
        r == height.sub_spec(y).mul_spec(stride).add_spec(x).cast_spec(),
{
    ((height - y) * stride + x).cast()
}

/// The four channels of a packed colour, red in the most significant byte.
pub open spec fn unpacked(c: u32) -> Vector4u {
    Vector4u { x: c >> 24, y: (c >> 16) & 0xff, z: (c >> 8) & 0xff, w: c & 0xff }
}

/// The colour packed from four channels. A channel above 255 is not clamped:
/// its high bits spill into the channels to its left, and what leaves the
/// word on the left is lost.
pub open spec fn packed(v: Vector4u) -> u32 {
    (v.x << 24) | (v.y << 16) | (v.z << 8) | v.w
}

/// Splits a packed colour into its channels, each in `0..=255`. Packing
/// them gives the colour back.
pub fn vec4_from_color(c: u32) -> (v: Vector4u)
    ensures
        v == unpacked(c),
        v.x <= 255 && v.y <= 255 && v.z <= 255 && v.w <= 255,
        packed(v) == c,
{
    let v = Vector4u {
        x: (c & 0xff000000) >> 24,
        y: (c & 0xff0000) >> 16,
        z: (c & 0xff00) >> 8,
        w: c & 0xff,
    };
    assert((c & 0xff000000) >> 24 == c >> 24 && c >> 24 <= 255) by (bit_vector);
    assert((c & 0xff0000) >> 16 == (c >> 16) & 0xff && (c >> 16) & 0xff <= 255) by (bit_vector);
    assert((c & 0xff00) >> 8 == (c >> 8) & 0xff && (c >> 8) & 0xff <= 255) by (bit_vector);
    assert(c & 0xff <= 255) by (bit_vector);
    proof {
        lemma_pack_unpack(c);
    }
    v
}

/// Packs four channels into a colour, red in the most significant byte.
pub fn color_from_vec4(v: Vector4u) -> (c: u32)
    ensures
        c == packed(v),
{
    (v.x << 24) | (v.y << 16) | (v.z << 8) | v.w
}

/// Packing the channels of a colour gives the colour back.
pub proof fn lemma_pack_unpack(c: u32)
    ensures
        packed(unpacked(c)) == c,
{
    assert(((c >> 24) << 24) | (((c >> 16) & 0xff) << 16) | (((c >> 8) & 0xff) << 8) | (c & 0xff)
        == c) by (bit_vector);
}

/// Unpacking a colour packed from channels in `0..=255` gives the channels
/// back.
pub proof fn lemma_unpack_pack(v: Vector4u)
    requires
        v.x <= 255,
        v.y <= 255,
        v.z <= 255,
        v.w <= 255,
    ensures
        unpacked(packed(v)) == v,
{
    let (x, y, z, w) = (v.x, v.y, v.z, v.w);
    let c = (x << 24) | (y << 16) | (z << 8) | w;
    assert(c >> 24 == x && (c >> 16) & 0xff == y && (c >> 8) & 0xff == z && c & 0xff == w)
        by (bit_vector)
        requires
            c == (x << 24) | (y << 16) | (z << 8) | w,
            x <= 255,
            y <= 255,
            z <= 255,
            w <= 255,
    ;
}

/// The four bytes of a packed colour, most significant first: red, green,
/// blue, alpha.
pub open spec fn be_bytes(c: u32) -> Seq<u8> {
    seq![(c >> 24) as u8, ((c >> 16) & 0xff) as u8, ((c >> 8) & 0xff) as u8, (c & 0xff) as u8]
}

/// The bytes of a sequence of packed colours, four for each colour in turn.
pub open spec fn serialized(colors: Seq<u32>) -> Seq<u8> {
    Seq::new(4 * colors.len(), |i: int| be_bytes(colors[i / 4])[i % 4])
}

/// Splits a packed colour into its four bytes, most significant first.
pub fn color_bytes(c: u32) -> (b: [u8; 4])
    ensures
        b@ == be_bytes(c),
{
    let v = vec4_from_color(c);
    let b = [v.x as u8, v.y as u8, v.z as u8, v.w as u8];
    assert(b@ =~= be_bytes(c));
    b
}

/// Writes a buffer of packed colours out as bytes, four for each colour.
pub fn serialize(colors: &[u32]) -> (bytes: Vec<u8>)
    ensures
        bytes@ == serialized(colors@),
{
    let mut bytes: Vec<u8> = Vec::new();
    let mut i: usize = 0;
    while i < colors.len()
        invariant
            i <= colors@.len(),
            bytes@ == serialized(colors@.take(i as int)),
        decreases colors@.len() - i,
    {
        let b = color_bytes(colors[i]);
        let ghost prior = bytes@;
        bytes.push(b[0]);
        bytes.push(b[1]);
        bytes.push(b[2]);
        bytes.push(b[3]);
        proof {
            let next = colors@.take(i + 1);
            assert forall|j: int| 0 <= j < 4 * (i + 1) implies bytes@[j] == serialized(next)[j] by {
                if j < 4 * i {
                    assert(prior[j] == serialized(colors@.take(i as int))[j]);
                    assert(colors@.take(i as int)[j / 4] == next[j / 4]);
                } else {
                    assert(j / 4 == i as int);
                    assert(next[j / 4] == colors@[i as int]);
                }
            }
            assert(bytes@ =~= serialized(next));
        }
        i += 1;
    }
    assert(colors@.take(colors@.len() as int) =~= colors@);
    bytes
}

/// Why an image could not be read or written.
#[derive(Clone, Copy, Debug, PartialEq, Eq, Structural)]
pub enum ImageError {
    /// The decoder refused the stream.
    Decode,
    /// The decoded frame would take more bytes than can be allocated.
    TooLarge,
    /// The number of samples does not match the width and the height.
    Shape,
    /// The encoder reported an error.
    Encode,
}

/// The texel packed from three samples: red, green, blue, under full alpha.
pub open spec fn rgb_texel(r: u8, g: u8, b: u8) -> u32 {
    packed(Vector4u { x: r as u32, y: g as u32, z: b as u32, w: 0xff })
}

/// The texels of an image given as three samples for each pixel.
pub open spec fn rgb_texels(data: Seq<u8>) -> Seq<u32> {
    Seq::new(data.len() / 3, |i: int| rgb_texel(data[3 * i], data[3 * i + 1], data[3 * i + 2]))
}

/// Builds the texture of an image of `width` by `height` pixels from its
/// samples, three bytes for each pixel, the top row first. Any other number
/// of samples is refused.
pub fn texture_from_rgb(width: u32, height: u32, data: &[u8]) -> (r: Result<Texture, ImageError>)
    ensures
        match r {
            Ok(t) => data@.len() == 3 * (width * height) && t.wf() && t.width == width && t.height
                == height && t.buf@ == rgb_texels(data@),
            Err(e) => data@.len() != 3 * (width * height) && e == ImageError::Shape,
        },
{
    assert(0 <= width * height <= 0xffff_ffff * 0xffff_ffff) by (nonlinear_arith);
    let pixels: u64 = width as u64 * height as u64;
    if data.len() as u128 != 3 * (pixels as u128) {
        return Err(ImageError::Shape);
    }
    let n: usize = data.len() / 3;
    let mut buf: Vec<u32> = Vec::new();
    let mut i: usize = 0;
    while i < n
        invariant
            i <= n,
            data@.len() == 3 * n <= usize::MAX,
            buf@.len() == i,
            forall|j: int|
                0 <= j < i ==> buf@[j] == rgb_texel(data@[3 * j], data@[3 * j + 1], data@[3 * j + 2]),
        decreases n - i,
    {
        let v = Vector4u {
            x: data[3 * i] as u32,
            y: data[3 * i + 1] as u32,
            z: data[3 * i + 2] as u32,
            w: 0xff,
        };
        buf.push(color_from_vec4(v));
        i += 1;
    }
    assert(buf@ =~= rgb_texels(data@));
    Ok(Texture { width: width as usize, height: height as usize, buf })
}

/// What `load_png_texture` makes of a stream, given what the decoder makes
/// of it: the width, the height and the texels of the texture, or the
/// error.
pub open spec fn loaded(bytes: Seq<u8>) -> Result<(u32, u32, Seq<u32>), ImageError> {
    match png_frame_size(bytes) {
        None => Err(ImageError::Decode),
        Some(size) => if size > isize::MAX {
            Err(ImageError::TooLarge)
        } else {
            match png_frame(bytes, size) {
                None => Err(ImageError::Decode),
                Some((width, height, data)) => if data.len() == 3 * (width * height) {
                    Ok((width, height, rgb_texels(data)))
                } else {
                    Err(ImageError::Shape)
                },
            }
        },
    }
}

/// Decodes a PNG stream into a texture. The stream must decode to three
/// samples of eight bits for each pixel.
pub fn load_png_texture(bytes: &[u8]) -> (r: Result<Texture, ImageError>)
    ensures
        match r {
            Ok(t) => t.wf() && t.width <= u32::MAX && t.height <= u32::MAX && loaded(bytes@) == Ok::<
                (u32, u32, Seq<u32>),
                ImageError,
            >((t.width as u32, t.height as u32, t.buf@)),
            Err(e) => loaded(bytes@) == Err::<(u32, u32, Seq<u32>), ImageError>(e),
        },
{
    let size = match frame_size(bytes) {
        Ok(size) => size,
        Err(_) => {
            return Err(ImageError::Decode);
        },
    };
    if size > isize::MAX as usize {
        return Err(ImageError::TooLarge);
    }
    match read_frame(bytes, size) {
        Ok((width, height, data)) => texture_from_rgb(width, height, data.as_slice()),
        Err(_) => Err(ImageError::Decode),
    }
}

/// Encodes a buffer of packed colours as a PNG stream of `width` by `height`
/// pixels with red, green, blue and alpha. A buffer that does not hold one
/// colour for each pixel is refused.
pub fn save_png(width: u32, height: u32, buf: &[u32]) -> (r: Result<Vec<u8>, ImageError>)
    ensures
        match r {
            Ok(stream) => buf@.len() == width * height && png_rgba8(width, height, serialized(buf@))
                == Some(stream@),
            Err(e) => if buf@.len() != width * height {
                e == ImageError::Shape
            } else {
                e == ImageError::Encode && png_rgba8(width, height, serialized(buf@)) is None
            },
        },
{
    assert(0 <= width * height <= 0xffff_ffff * 0xffff_ffff) by (nonlinear_arith);
    let pixels: u64 = width as u64 * height as u64;
    if buf.len() as u128 != pixels as u128 {
        return Err(ImageError::Shape);
    }
    let data = serialize(buf);
    match write_rgba8(width, height, data.as_slice()) {
        Ok(stream) => Ok(stream),
        Err(_) => Err(ImageError::Encode),
    }
}

} // verus!
