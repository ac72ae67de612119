//! Images, header information, and the shape rules every image obeys.

use crate::error::{DbpxError, ErrorKind};
use crate::types::{ColorType, Compression, MAX_DIM, MAX_PIXELS};
use vstd::prelude::*;

verus! {

/// A decoded raster image. `pixels` holds `width * height` pixels in raster
/// order, each of `color.channels()` bytes.
#[derive(Debug, Clone, PartialEq, Eq)]
pub struct Image {
    pub width: u32,
    pub height: u32,
    pub color: ColorType,
    pub pixels: Vec<u8>,
}

/// The mathematical value of an [`Image`].
pub struct ImageView {
    pub width: u32,
    pub height: u32,
    pub color: ColorType,
    pub pixels: Seq<u8>,
}

impl View for Image {
    type V = ImageView;

    open spec fn view(&self) -> ImageView {
        ImageView { width: self.width, height: self.height, color: self.color, pixels: self.pixels@ }
    }
}

/// What a file header says about its image and payload.
#[derive(Debug, Clone, Copy, PartialEq, Eq, Structural)]
pub struct Info {
    pub width: u32,
    pub height: u32,
    pub color: ColorType,
    pub compression: Compression,
    pub pixel_payload_len: u64,
}

/// The number of pixels of a `w` by `h` image.
pub open spec fn pixel_count(w: u32, h: u32) -> nat {
    (w * h) as nat
}

/// The error, if any, that the dimension rules give for `w` by `h`.
pub open spec fn dims_error(w: u32, h: u32) -> Option<ErrorKind> {
    if w == 0 || h == 0 || w > MAX_DIM || h > MAX_DIM {
        Some(ErrorKind::BadDimensions)
    } else if pixel_count(w, h) > MAX_PIXELS {
        Some(ErrorKind::PixelLimit(pixel_count(w, h) as u64))
    } else {
        None
    }
}

/// Whether `w` by `h` are acceptable dimensions.
pub open spec fn dims_ok(w: u32, h: u32) -> bool {
    dims_error(w, h) is None
}

/// The pixel byte count of a `w` by `h` image of colour type `c`, or why it
/// cannot be held.
pub open spec fn expected_len_spec(w: u32, h: u32, c: ColorType) -> Result<usize, ErrorKind> {
    let n = pixel_count(w, h) * c.spec_channels();
    if n > u64::MAX {
        Err(ErrorKind::PixelByteOverflow)
    } else if n > usize::MAX {
        Err(ErrorKind::PixelByteOverflowsUsize)
    } else {
        Ok(n as usize)
    }
}

/// The error, if any, of an image of the given shape holding `got` pixel bytes.
pub open spec fn shape_error(w: u32, h: u32, c: ColorType, got: usize) -> Option<ErrorKind> {
    match dims_error(w, h) {
        Some(e) => Some(e),
        None => match expected_len_spec(w, h, c) {
            Err(e) => Some(e),
            Ok(want) => if got != want {
                Some(ErrorKind::BadPixelLength { expected: want, got })
            } else {
                None
            },
        },
    }
}

impl ImageView {
    /// Whether the pixel bytes hold at least `width * height` pixels.
    pub open spec fn has_pixels(self) -> bool {
        pixel_count(self.width, self.height) * self.color.spec_channels() <= self.pixels.len()
    }

    /// Whether the image obeys the shape rules.
    pub open spec fn wf(self) -> bool {
        &&& dims_ok(self.width, self.height)
        &&& self.pixels.len() == pixel_count(self.width, self.height) * self.color.spec_channels()
    }
}

pub proof fn lemma_pixel_count_bound(w: u32, h: u32)
    ensures
        pixel_count(w, h) <= 0xFFFF_FFFF * 0xFFFF_FFFFnat,
        dims_ok(w, h) ==> 1 <= pixel_count(w, h) <= MAX_PIXELS,
{
    assert(w * h <= 0xFFFF_FFFF * 0xFFFF_FFFFnat) by (nonlinear_arith)
        requires
            w <= 0xFFFF_FFFFnat,
            h <= 0xFFFF_FFFFnat,
    ;
    if w >= 1 && h >= 1 {
        assert(w * h >= 1) by (nonlinear_arith)
            requires
                w >= 1,
                h >= 1,
        ;
    }
}

/// A shape that passes the dimension rules has a pixel byte count that fits.
pub proof fn lemma_shape_fits(w: u32, h: u32, c: ColorType)
    requires
        dims_ok(w, h),
    ensures
        expected_len_spec(w, h, c) == Ok::<usize, ErrorKind>(
            (pixel_count(w, h) * c.spec_channels()) as usize,
        ),
        pixel_count(w, h) * c.spec_channels() <= 4 * MAX_PIXELS,
{
    lemma_pixel_count_bound(w, h);
    assert(pixel_count(w, h) * c.spec_channels() <= 4 * MAX_PIXELS) by (nonlinear_arith)
        requires
            pixel_count(w, h) <= MAX_PIXELS,
            c.spec_channels() <= 4,
    ;
}

/// Pixel `i` of an image that holds all its pixel bytes lies within them.
pub proof fn lemma_channels_fit(img: ImageView, i: int)
    requires
        img.has_pixels(),
        0 <= i < pixel_count(img.width, img.height),
    ensures
        (i + 1) * img.color.spec_channels() <= img.pixels.len(),
{
    assert((i + 1) * img.color.spec_channels() <= pixel_count(img.width, img.height)
        * img.color.spec_channels()) by (nonlinear_arith)
        requires
            0 <= i < pixel_count(img.width, img.height),
    ;
}

/// An image that holds all its pixel bytes has no more pixels than bytes.
pub proof fn lemma_has_pixels_count(img: ImageView)
    requires
        img.has_pixels(),
    ensures
        pixel_count(img.width, img.height) <= img.pixels.len(),
{
    assert(pixel_count(img.width, img.height) <= pixel_count(img.width, img.height)
        * img.color.spec_channels()) by (nonlinear_arith)
        requires
            img.color.spec_channels() >= 1,
    ;
}

/// The number of pixels of a `w` by `h` image (this product always fits).
pub fn pixels(w: u32, h: u32) -> (n: u64)
    ensures
        n == pixel_count(w, h),
{
    proof {
        lemma_pixel_count_bound(w, h);
    }
    (w as u64) * (h as u64)
}

/// Checks the dimension rules.
pub fn check_dims(w: u32, h: u32) -> (r: Result<(), DbpxError>)
    ensures
        match r {
            Ok(_) => dims_error(w, h) is None,
            Err(e) => dims_error(w, h) == Some(e.kind),
        },
{
    if w == 0 || h == 0 || w > 65_535 || h > 65_535 {
        return Err(DbpxError::of(ErrorKind::BadDimensions));
    }
    let n = pixels(w, h);
    if n > MAX_PIXELS {
        return Err(DbpxError::of(ErrorKind::PixelLimit(n)));
    }
    Ok(())
}

/// The pixel byte count of a `w` by `h` image of colour type `c`.
pub fn expected_len(w: u32, h: u32, c: ColorType) -> (r: Result<usize, DbpxError>)
    ensures
        match r {
            Ok(n) => expected_len_spec(w, h, c) == Ok::<usize, ErrorKind>(n),
            Err(e) => expected_len_spec(w, h, c) == Err::<usize, ErrorKind>(e.kind),
        },
{
    let n = pixels(w, h);
    let ch = c.channels() as u64;
    match n.checked_mul(ch) {
        None => Err(DbpxError::of(ErrorKind::PixelByteOverflow)),
        Some(bytes) => {
            if bytes > usize::MAX as u64 {
                Err(DbpxError::of(ErrorKind::PixelByteOverflowsUsize))
            } else {
                Ok(bytes as usize)
            }
        },
    }
}

/// Checks that an image of the given shape holding `got` pixel bytes obeys
/// the shape rules.
pub fn check_shape(w: u32, h: u32, c: ColorType, got: usize) -> (r: Result<(), DbpxError>)
    ensures
        match r {
            Ok(_) => shape_error(w, h, c, got) is None,
            Err(e) => shape_error(w, h, c, got) == Some(e.kind),
        },
{
    check_dims(w, h)?;
    let want = expected_len(w, h, c)?;
    if got != want {
        Err(DbpxError::of(ErrorKind::BadPixelLength { expected: want, got }))
    } else {
        Ok(())
    }
}

impl Image {
    /// An image of the given shape, if `pixels` holds exactly its pixel bytes
    /// and the dimension rules hold.
    pub fn new(width: u32, height: u32, color: ColorType, pixels: Vec<u8>) -> (r: Result<
        Image,
        DbpxError,
    >)
        ensures
            match r {
                Ok(img) => shape_error(width, height, color, pixels@.len() as usize) is None
                    && img.width == width && img.height == height && img.color == color
                    && img.pixels@ == pixels@,
                Err(e) => shape_error(width, height, color, pixels@.len() as usize) == Some(
                    e.kind,
                ),
            },
    {
        check_shape(width, height, color, pixels.len())?;
        Ok(Image { width, height, color, pixels })
    }
}

/// Shape rules in terms of the view.
pub proof fn lemma_shape_error_none(img: ImageView)
    requires
        img.pixels.len() <= usize::MAX,
    ensures
        shape_error(img.width, img.height, img.color, img.pixels.len() as usize) is None
            <==> img.wf(),
{
    if dims_ok(img.width, img.height) {
        lemma_shape_fits(img.width, img.height, img.color);
    }
}

} // verus!
