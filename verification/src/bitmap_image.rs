//! Images as rows of RGBA bytes.
use vstd::prelude::*;

verus! {

/// 32 bit bitmap image: four bytes for each pixel, red first, the rows from
/// the top down.
#[derive(Debug, Clone)]
pub struct BitmapImage {
    pub data: Vec<u8>,
    pub width: u32,
    pub height: u32,
}

impl BitmapImage {
    /// Whether the image holds four bytes for each of its pixels.
    pub open spec fn wf(&self) -> bool {
        self.data.len() == self.width * self.height * 4
    }

    /// Tells whether the image holds four bytes for each of its pixels.
    pub fn is_wf(&self) -> (whole: bool)
        ensures
            whole == self.wf(),
    {
        assert(self.width * self.height <= 0xffff_ffff * 0xffff_ffff) by (nonlinear_arith)
            requires
                self.width <= 0xffff_ffff,
                self.height <= 0xffff_ffff,
        ;
        self.data.len() as u128 == (self.width as u128) * (self.height as u128) * 4
    }

    /// The image of the given size in which every byte is zero.
    pub fn empty(width: u32, height: u32) -> (image: BitmapImage)
        requires
            width * height * 4 <= usize::MAX,
        ensures
            image.wf(),
            image.width == width,
            image.height == height,
            forall|i: int| 0 <= i < image.data.len() ==> image.data[i] == 0,
    {
        assert(width * height <= width * height * 4) by (nonlinear_arith);
        BitmapImage { data: vec![0u8; (width as usize) * (height as usize) * 4], width, height }
    }
}

/// What `image::load_from_memory_with_format` makes of the bytes of a file
/// that is read as PNG: nothing where it fails, and otherwise the number of
/// channels, the width, the height and the raw samples. The number of
/// channels is 4 for an image that is decoded as eight-bit RGBA and 3 for one
/// decoded as eight-bit RGB; for every other kind it is 0 and the samples are
/// left out.
pub uninterp spec fn decoded_image(file_bytes: Seq<u8>) -> Option<(u8, u32, u32, Seq<u8>)>;

/// Decodes a PNG file that is held in memory, by
/// `image::load_from_memory_with_format` with the format set to PNG, so that
/// the decoder is the one that is built in and nothing that a process can
/// register is asked. Nothing is claimed of what the decoder finds in the
/// bytes, only that the same bytes give the same image.
#[verifier::external_body]
fn decode_image(file_bytes: &[u8]) -> (decoded: Option<(u8, u32, u32, Vec<u8>)>)
    ensures
        decoded.is_some() == decoded_image(file_bytes@).is_some(),
        decoded matches Some(d) ==> decoded_image(file_bytes@) == Some((d.0, d.1, d.2, d.3@)),
{
    match image::load_from_memory_with_format(file_bytes, image::ImageFormat::Png) {
        Ok(image::DynamicImage::ImageRgba8(p)) => Some((4, p.width(), p.height(), p.into_raw())),
        Ok(image::DynamicImage::ImageRgb8(p)) => Some((3, p.width(), p.height(), p.into_raw())),
        Ok(other) => Some((0, other.width(), other.height(), Vec::new())),
        Err(_) => None,
    }
}

/// The RGBA bytes of RGB samples: every pixel gets full opacity.
pub open spec fn opaque_rgba(rgb: Seq<u8>) -> Seq<u8> {
    Seq::new(
        (rgb.len() / 3 * 4) as nat,
        |i: int|
            if i % 4 == 3 {
                255u8
            } else {
                rgb[i / 4 * 3 + i % 4]
            },
    )
}

/// Whether decoded samples make an image: they are RGBA or RGB, there are as
/// many as the size asks for, and four bytes for each pixel can be indexed.
pub open spec fn decoded_usable(channels: u8, width: u32, height: u32, samples: Seq<u8>) -> bool {
    &&& channels == 4 || channels == 3
    &&& samples.len() == width * height * channels
    &&& width * height * 4 <= usize::MAX
}

/// Makes an image of decoded samples: RGBA samples are taken as they are, RGB
/// samples get full opacity, and anything else is refused.
pub fn bitmap_from_decoded(
    channels: u8,
    width: u32,
    height: u32,
    samples: Vec<u8>,
) -> (image: Option<BitmapImage>)
    ensures
        image.is_some() <==> decoded_usable(channels, width, height, samples@),
        image matches Some(bitmap) ==> bitmap.wf() && bitmap.width == width && bitmap.height
            == height && bitmap.data@ == if channels == 4 {
            samples@
        } else {
            opaque_rgba(samples@)
        },
{
    if channels != 4 && channels != 3 {
        return None;
    }
    assert(width * height <= 0xffff_ffff * 0xffff_ffff) by (nonlinear_arith)
        requires
            width <= 0xffff_ffff,
            height <= 0xffff_ffff,
    ;
    let pixels = (width as u64) * (height as u64);
    if pixels > (usize::MAX / 4) as u64 {
        return None;
    }
    let pixels = pixels as usize;
    if samples.len() != pixels * (channels as usize) {
        return None;
    }
    if channels == 4 {
        return Some(BitmapImage { data: samples, width, height });
    }
    let mut raw_data: Vec<u8> = Vec::new();
    let mut i: usize = 0;
    while i < pixels
        invariant
            i <= pixels,
            pixels * 4 <= usize::MAX,
            samples.len() == pixels * 3,
            raw_data.len() == i * 4,
            forall|k: int|
                0 <= k < raw_data.len() ==> raw_data[k] == #[trigger] opaque_rgba(samples@)[k],
        decreases pixels - i,
    {
        raw_data.push(samples[i * 3]);
        raw_data.push(samples[i * 3 + 1]);
        raw_data.push(samples[i * 3 + 2]);
        raw_data.push(255);
        i += 1;
    }
    assert(raw_data@ =~= opaque_rgba(samples@));
    Some(BitmapImage { data: raw_data, width, height })
}

/// Loads an image as rgba array from file_bytes (a whole PNG file in memory
/// as bytes). There is no image where the bytes cannot be decoded as PNG, or
/// decode to something other than eight-bit RGB or RGBA.
pub fn load_image_from_file_bytes(file_bytes: &[u8]) -> (image: Option<BitmapImage>)
    ensures
        image.is_some() <==> (decoded_image(file_bytes@) matches Some(d) && decoded_usable(
            d.0,
            d.1,
            d.2,
            d.3,
        )),
        image matches Some(bitmap) ==> {
            let d = decoded_image(file_bytes@).unwrap();
            bitmap.wf() && bitmap.width == d.1 && bitmap.height == d.2 && bitmap.data@ == if d.0
                == 4 {
                d.3
            } else {
                opaque_rgba(d.3)
            }
        },
{
    match decode_image(file_bytes) {
        Some((channels, width, height, samples)) => bitmap_from_decoded(
            channels,
            width,
            height,
            samples,
        ),
        None => None,
    }
}

} // verus!
