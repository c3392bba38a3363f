//! The calls into the `png` crate. Nothing here is proved: each contract
//! says what the crate is trusted to do.
use vstd::prelude::*;

verus! {

/// The error of the `png` decoder, carried through unread.
#[verifier::external_type_specification]
#[verifier::external_body]
pub struct ExDecodingError(png::DecodingError);

/// The error of the `png` encoder, carried through unread.
#[verifier::external_type_specification]
#[verifier::external_body]
pub struct ExEncodingError(png::EncodingError);

/// The number of bytes that the first frame of the PNG stream `bytes`
/// decodes to, as `png::Reader::output_buffer_size` reports it once
/// `png::Decoder::read_info` has accepted the stream; `None` where
/// `read_info` refuses the stream.
pub uninterp spec fn png_frame_size(bytes: Seq<u8>) -> Option<usize>;

/// The first frame of the PNG stream `bytes` as `png::Reader::next_frame`
/// decodes it into a buffer of `size` bytes: the width and the height that it
/// reports for the frame, and the buffer afterwards. `None` where the stream
/// or the size of the buffer is refused.
pub uninterp spec fn png_frame(bytes: Seq<u8>, size: usize) -> Option<(u32, u32, Seq<u8>)>;

/// The PNG stream that `png::Writer::write_image_data` and
/// `png::Writer::finish` produce for one image of `width` by `height` pixels
/// with eight bits for each of red, green, blue and alpha, whose samples are
/// `data`; `None` where the encoder reports an error.
pub uninterp spec fn png_rgba8(width: u32, height: u32, data: Seq<u8>) -> Option<Seq<u8>>;

/// Runs `png::Decoder::new` and `png::Decoder::read_info` on `bytes` and asks
/// `png::Reader::output_buffer_size` for the size of the decoded frame. The
/// contract only gives the outcome its name.
#[verifier::external_body]
pub(crate) fn frame_size(bytes: &[u8]) -> (r: Result<usize, png::DecodingError>)
    ensures
        match r {
            Ok(n) => png_frame_size(bytes@) == Some(n),
            Err(_) => png_frame_size(bytes@) is None,
        },
{
    let reader = png::Decoder::new(bytes).read_info()?;
    Ok(reader.output_buffer_size())
}

/// Runs `png::Decoder::read_info` on `bytes` and has `png::Reader::next_frame`
/// decode the first frame into a zeroed buffer of `size` bytes. The buffer
/// keeps its length; beyond that the contract only gives the outcome its
/// name. A buffer of more than `isize::MAX` bytes cannot be allocated.
#[verifier::external_body]
pub(crate) fn read_frame(bytes: &[u8], size: usize) -> (r: Result<(u32, u32, Vec<u8>), png::DecodingError>)
    requires
        size <= isize::MAX,
    ensures
        match r {
            Ok(frame) => png_frame(bytes@, size) == Some((frame.0, frame.1, frame.2@))
                && frame.2@.len() == size,
            Err(_) => png_frame(bytes@, size) is None,
        },
{
    let mut reader = png::Decoder::new(bytes).read_info()?;
    let mut data = vec![0; size];
    let info = reader.next_frame(&mut data)?;
    Ok((info.width, info.height, data))
}

/// Has `png::Encoder` write one image of `width` by `height` pixels, eight
/// bits for each of red, green, blue and alpha, into a vector. `data` holds
/// exactly the samples of that many pixels, so that the size the encoder
/// computes is the length of `data`. The contract only gives the outcome its
/// name.
#[verifier::external_body]
pub(crate) fn write_rgba8(width: u32, height: u32, data: &[u8]) -> (r: Result<Vec<u8>, png::EncodingError>)
    requires
        data@.len() == 4 * (width * height),
    ensures
        match r {
            Ok(stream) => png_rgba8(width, height, data@) == Some(stream@),
            Err(_) => png_rgba8(width, height, data@) is None,
        },
{
    let mut stream = Vec::new();
    let mut encoder = png::Encoder::new(&mut stream, width, height);
    encoder.set_color(png::ColorType::Rgba);
    encoder.set_depth(png::BitDepth::Eight);
    let mut writer = encoder.write_header()?;
    writer.write_image_data(data)?;
    writer.finish()?;
    Ok(stream)
}

} // verus!
