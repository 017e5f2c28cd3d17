//! Decoded images.
use std::sync::Arc;
use vstd::prelude::*;

verus! {

/// A decoded image: its size and its bytes, row by row.
#[derive(Debug, PartialEq, Eq)]
pub struct RasterImage {
    pub width: u32,
    pub height: u32,
    pub bytes: Vec<u8>,
}

impl RasterImage {
    /// How many pixels the image has.
    pub open spec fn pixels(self) -> int {
        self.width * self.height
    }

    /// Whether there are four bytes per pixel: red, green, blue and alpha.
    pub open spec fn is_rgba(self) -> bool {
        self.bytes@.len() == 4 * self.pixels()
    }
}

/// `Arc::clone` gives another handle of the same value.
#[verifier::external_body]
pub(crate) fn share<T>(value: &Arc<T>) -> (shared: Arc<T>)
    ensures
        shared == *value,
{
    Arc::clone(value)
}

/// `image::RgbaImage::from_raw` takes bytes for an image of the given size. It
/// refuses them if they are too few, or if a row of pixels has more bytes than
/// a `usize` can count.
#[verifier::external_body]
pub(crate) fn rgba_from_raw(width: u32, height: u32, bytes: Vec<u8>) -> (raster: Option<RasterImage>)
    ensures
        raster.is_some() == (4 * width <= usize::MAX && 4 * width * height <= bytes@.len()),
        raster.is_some() ==> raster->0.width == width && raster->0.height == height
            && raster->0.bytes@ == bytes@,
{
    image::RgbaImage::from_raw(width, height, bytes).map(
        |buffer| RasterImage { width: buffer.width(), height: buffer.height(), bytes: buffer.into_raw() },
    )
}

/// The bytes of the PNG file that `image` writes for a grayscale image, if it
/// can write one.
pub uninterp spec fn png_encoding(width: u32, height: u32, luma: Seq<u8>) -> Option<Seq<u8>>;

/// `image::DynamicImage::write_to` encodes a grayscale image as a PNG file.
/// It panics if the bytes are not one per pixel.
#[verifier::external_body]
pub(crate) fn png_from_luma(width: u32, height: u32, luma: Vec<u8>) -> (png: Option<Vec<u8>>)
    requires
        luma@.len() == width * height,
    ensures
        png.is_some() == png_encoding(width, height, luma@).is_some(),
        png.is_some() ==> png->0@ == png_encoding(width, height, luma@)->0,
{
    let buffer = image::GrayImage::from_raw(width, height, luma)?;
    let mut png: Vec<u8> = Vec::new();
    let mut cursor = std::io::Cursor::new(&mut png);
    image::DynamicImage::ImageLuma8(buffer).write_to(&mut cursor, image::ImageFormat::Png).ok()?;
    Some(png)
}

/// Red, green and blue replicate the gray value; alpha holds the mask. There
/// are as many pixels as both lists have values for.
pub open spec fn gray_with_alpha(gray: Seq<u8>, alpha: Seq<u8>) -> Seq<u8> {
    let n: nat = if gray.len() < alpha.len() { gray.len() } else { alpha.len() };
    Seq::new(4 * n, |k: int| if k % 4 == 3 { alpha[k / 4] } else { gray[k / 4] })
}

/// Interleaves gray values and a mask.
pub fn interleave_mask(gray: &Vec<u8>, alpha: &Vec<u8>) -> (rgba: Vec<u8>)
    ensures
        rgba@ == gray_with_alpha(gray@, alpha@),
{
    let n: usize = if gray.len() < alpha.len() {
        gray.len()
    } else {
        alpha.len()
    };
    let mut rgba: Vec<u8> = Vec::new();
    for i in 0..n
        invariant
            n <= gray@.len(),
            n <= alpha@.len(),
            rgba@ == Seq::new(
                4 * i as nat,
                |k: int| if k % 4 == 3 { alpha@[k / 4] } else { gray@[k / 4] },
            ),
    {
        let ghost before = rgba@;
        rgba.push(gray[i]);
        rgba.push(gray[i]);
        rgba.push(gray[i]);
        rgba.push(alpha[i]);
        assert(rgba@ =~= Seq::new(
            4 * (i + 1) as nat,
            |k: int| if k % 4 == 3 { alpha@[k / 4] } else { gray@[k / 4] },
        ));
    }
    rgba
}

/// The high bytes of 16-bit gray values.
pub open spec fn high_bytes(samples: Seq<u16>) -> Seq<u8> {
    samples.map_values(|s: u16| (s / 256) as u8)
}

/// Keeps the high byte of each of the first `n` samples.
fn take_high_bytes(samples: &[u16], n: usize) -> (gray: Vec<u8>)
    requires
        n <= samples@.len(),
    ensures
        gray@ == high_bytes(samples@.take(n as int)),
{
    let mut gray: Vec<u8> = Vec::new();
    for i in 0..n
        invariant
            n <= samples@.len(),
            gray@ == high_bytes(samples@.take(i as int)),
    {
        let sample: u16 = samples[i];
        assert(sample >> 8 == sample / 256) by (bit_vector);
        gray.push((sample >> 8) as u8);
        assert(gray@ =~= high_bytes(samples@.take(i + 1)));
    }
    gray
}

/// The image that a camera delivered: 16-bit gray values are reduced to their
/// high bytes, and alpha holds the mask, or is opaque without one.
pub open spec fn camera_rgba(samples: Seq<u16>, mask: Option<Seq<u8>>, pixels: nat) -> Seq<u8> {
    let gray = high_bytes(samples.take(pixels as int));
    match mask {
        Some(m) => gray_with_alpha(gray, m.take(pixels as int)),
        None => gray_with_alpha(gray, Seq::new(pixels, |i: int| 255u8)),
    }
}

/// The view of an optional mask.
pub open spec fn mask_view(mask: Option<Vec<u8>>) -> Option<Seq<u8>> {
    match mask {
        Some(m) => Some(m@),
        None => None,
    }
}

/// Turns the gray values of a camera into a colour image.
pub fn copy_into_rgba_image(samples: &[u16], mask: &Option<Vec<u8>>, width: u32, height: u32) -> (raster: RasterImage)
    requires
        width * height <= u32::MAX,
        4 * width <= usize::MAX,
        4 * width * height <= usize::MAX,
        width * height <= samples@.len(),
        mask.is_some() ==> width * height <= mask->0@.len(),
    ensures
        raster.width == width,
        raster.height == height,
        raster.bytes@ == camera_rgba(samples@, mask_view(*mask), (width * height) as nat),
        forall|i: int|
            #![trigger samples@[i]]
            0 <= i < width * height ==> {
                &&& raster.bytes@[4 * i] == samples@[i] / 256
                &&& raster.bytes@[4 * i + 1] == samples@[i] / 256
                &&& raster.bytes@[4 * i + 2] == samples@[i] / 256
                &&& raster.bytes@[4 * i + 3] == (match *mask {
                    Some(m) => m@[i],
                    None => 255,
                })
            },
        raster.is_rgba(),
{
    assert(4 * width * height == 4 * (width * height)) by (nonlinear_arith);
    let pixel_count: usize = (width * height) as usize;
    let gray = take_high_bytes(samples, pixel_count);
    let mut alpha: Vec<u8> = Vec::new();
    match mask {
        Some(m) => {
            for i in 0..pixel_count
                invariant
                    pixel_count <= m@.len(),
                    alpha@ == m@.take(i as int),
            {
                alpha.push(m[i]);
                assert(alpha@ =~= m@.take(i + 1));
            }
        },
        None => {
            for i in 0..pixel_count
                invariant
                    alpha@ == Seq::new(i as nat, |k: int| 255u8),
            {
                alpha.push(255);
                assert(alpha@ =~= Seq::new((i + 1) as nat, |k: int| 255u8));
            }
        },
    }
    let rgba = interleave_mask(&gray, &alpha);
    proof {
        assert forall|i: int|
            #![trigger samples@[i]]
            0 <= i < width * height implies {
            &&& rgba@[4 * i] == samples@[i] / 256
            &&& rgba@[4 * i + 1] == samples@[i] / 256
            &&& rgba@[4 * i + 2] == samples@[i] / 256
            &&& rgba@[4 * i + 3] == (match *mask {
                Some(m) => m@[i],
                None => 255,
            })
        } by {
            lemma_camera_pixels(samples@, mask_view(*mask), (width * height) as nat, i);
        }
    }
    rgba_from_raw(width, height, rgba).unwrap()
}

/// How many of the packed colours are almost transparent: alpha, the highest
/// byte, is at most 5.
pub open spec fn transparent_count(packed: Seq<u32>) -> nat {
    packed.filter(|p: u32| p / 0x100_0000 <= 5).len()
}

/// Counts the almost transparent pixels of a rendering.
pub fn count_transparent(packed: &Vec<u32>) -> (count: usize)
    ensures
        count == transparent_count(packed@),
        count <= packed@.len(),
{
    let n: usize = packed.len();
    let ghost pred = |p: u32| p / 0x100_0000 <= 5;
    let mut count: usize = 0;
    proof {
        reveal(Seq::filter);
        assert(packed@.take(0).filter(pred).len() == 0);
    }
    for i in 0..n
        invariant
            n == packed@.len(),
            pred == (|p: u32| p / 0x100_0000 <= 5),
            count == packed@.take(i as int).filter(pred).len(),
            count <= i,
    {
        let p: u32 = packed[i];
        assert(p >> 24 == p / 0x100_0000) by (bit_vector);
        proof {
            reveal(Seq::filter);
            assert(packed@.take(i + 1).drop_last() =~= packed@.take(i as int));
        }
        if p >> 24 <= 5 {
            count = count + 1;
        }
    }
    assert(packed@.take(n as int) =~= packed@);
    count
}

/// Each pixel of a masked image has its gray value in red, green and blue, and
/// the value of the mask in alpha.
pub proof fn lemma_gray_pixels_are_masked(gray: Seq<u8>, alpha: Seq<u8>, i: int)
    requires
        0 <= i < gray.len(),
        gray.len() == alpha.len(),
    ensures
        gray_with_alpha(gray, alpha).len() == 4 * gray.len(),
        gray_with_alpha(gray, alpha)[4 * i] == gray[i],
        gray_with_alpha(gray, alpha)[4 * i + 1] == gray[i],
        gray_with_alpha(gray, alpha)[4 * i + 2] == gray[i],
        gray_with_alpha(gray, alpha)[4 * i + 3] == alpha[i],
{
}

/// Each pixel that a camera delivered keeps the high byte of its value in red,
/// green and blue. Alpha is the mask, or opaque without one.
pub proof fn lemma_camera_pixels(samples: Seq<u16>, mask: Option<Seq<u8>>, pixels: nat, i: int)
    requires
        0 <= i < pixels,
        pixels <= samples.len(),
        mask.is_some() ==> pixels <= mask->0.len(),
    ensures
        ({
            let bytes = camera_rgba(samples, mask, pixels);
            &&& bytes.len() == 4 * pixels
            &&& bytes[4 * i] == samples[i] / 256
            &&& bytes[4 * i + 1] == samples[i] / 256
            &&& bytes[4 * i + 2] == samples[i] / 256
            &&& bytes[4 * i + 3] == (match mask {
                Some(m) => m[i],
                None => 255,
            })
        }),
{
    let gray = high_bytes(samples.take(pixels as int));
    assert(gray[i] == samples[i] / 256);
    match mask {
        Some(m) => {
            lemma_gray_pixels_are_masked(gray, m.take(pixels as int), i);
        },
        None => {
            lemma_gray_pixels_are_masked(gray, Seq::new(pixels, |i: int| 255u8), i);
        },
    }
}

/// Exactly the pixels whose alpha is at most 5 count as transparent.
pub proof fn lemma_transparent_pixels_count(packed: Seq<u32>, next: u32)
    ensures
        transparent_count(Seq::empty()) == 0,
        transparent_count(packed.push(next)) == transparent_count(packed) + (if next < 6 * 0x100_0000 {
            1nat
        } else {
            0
        }),
{
    reveal(Seq::filter);
    assert(packed.push(next).drop_last() =~= packed);
}

} // verus!
