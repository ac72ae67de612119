//! The sample images of the codec comparison corpus.

use crate::error::DbpxError;
use crate::image::{shape_error, Image, ImageView};
use crate::ppm::DEMO_MAX_SIDE;
use crate::types::ColorType;
use vstd::prelude::*;

verus! {

/// Concatenation of `f(i)` for `i` below `n`.
pub open spec fn concat_px(n: nat, f: spec_fn(nat) -> Seq<u8>) -> Seq<u8>
    decreases n,
{
    if n == 0 {
        Seq::empty()
    } else {
        concat_px((n - 1) as nat, f) + f((n - 1) as nat)
    }
}

/// Row after row, `w` pixels each, of `f(x, y)` for the first `m` rows.
pub open spec fn grid_px(w: nat, m: nat, f: spec_fn(nat, nat) -> Seq<u8>) -> Seq<u8>
    decreases m,
{
    if m == 0 {
        Seq::empty()
    } else {
        grid_px(w, (m - 1) as nat, f) + concat_px(w, |x: nat| f(x, (m - 1) as nat))
    }
}

/// An RGB image of the given size holding `p`, or why it cannot be made.
pub open spec fn rgb_image(w: u32, h: u32, p: Seq<u8>) -> Result<ImageView, crate::error::ErrorKind> {
    match shape_error(w, h, ColorType::RGB8, p.len() as usize) {
        Some(k) => Err(k),
        None => Ok(ImageView { width: w, height: h, color: ColorType::RGB8, pixels: p }),
    }
}

pub open spec fn gradient_px(w: u32, h: u32) -> spec_fn(nat, nat) -> Seq<u8> {
    |x: nat, y: nat|
        seq![
            ((x * 255) / (w as nat)) as u8,
            ((y * 255) / (h as nat)) as u8,
            ((x as u32 ^ y as u32) & 0xFF) as u8,
        ]
}

pub open spec fn solid_px() -> spec_fn(nat) -> Seq<u8> {
    |i: nat| seq![10u8, 20u8, 30u8]
}

pub open spec fn flat2_px() -> spec_fn(nat) -> Seq<u8> {
    |i: nat|
        if i % 2 == 0 {
            seq![10u8, 20u8, 30u8]
        } else {
            seq![40u8, 50u8, 60u8]
        }
}

pub open spec fn stripes_px() -> spec_fn(nat, nat) -> Seq<u8> {
    |x: nat, y: nat|
        if y % 2 == 0 {
            seq![220u8, 220u8, 220u8]
        } else {
            seq![20u8, 20u8, 20u8]
        }
}

fn result_image(w: u32, h: u32, px: Vec<u8>) -> (r: Result<Image, DbpxError>)
    ensures
        match r {
            Ok(img) => rgb_image(w, h, px@) == Ok::<ImageView, crate::error::ErrorKind>(img@),
            Err(e) => rgb_image(w, h, px@) == Err::<ImageView, crate::error::ErrorKind>(e.kind),
        },
{
    Image::new(w, h, ColorType::RGB8, px)
}

fn push3(out: &mut Vec<u8>, a: u8, b: u8, c: u8)
    ensures
        final(out)@ == old(out)@ + seq![a, b, c],
{
    out.push(a);
    out.push(b);
    out.push(c);
    assert(final(out)@ =~= old(out)@ + seq![a, b, c]);
}

/// Red and green ramps over the width and height; blue is `x ^ y`.
pub fn gradient(width: u32, height: u32) -> (r: Result<Image, DbpxError>)
    requires
        width * height * 3 <= u32::MAX,
        width == 0 || height == 0 || width <= DEMO_MAX_SIDE && height <= DEMO_MAX_SIDE,
    ensures
        match r {
            Ok(img) => rgb_image(
                width,
                height,
                grid_px(width as nat, height as nat, gradient_px(width, height)),
            ) == Ok::<ImageView, crate::error::ErrorKind>(img@),
            Err(e) => rgb_image(
                width,
                height,
                grid_px(width as nat, height as nat, gradient_px(width, height)),
            ) == Err::<ImageView, crate::error::ErrorKind>(e.kind),
        },
{
    let ghost f = gradient_px(width, height);
    let mut px: Vec<u8> = Vec::with_capacity((width * height * 3) as usize);
    let mut y: u32 = 0;
    while y < height
        invariant
            y <= height,
            f == gradient_px(width, height),
            width == 0 || height == 0 || width <= DEMO_MAX_SIDE && height <= DEMO_MAX_SIDE,
            px@ == grid_px(width as nat, y as nat, f),
        decreases height - y,
    {
        let mut x: u32 = 0;
        while x < width
            invariant
                x <= width,
                y < height,
                f == gradient_px(width, height),
                width == 0 || width <= DEMO_MAX_SIDE && height <= DEMO_MAX_SIDE,
                px@ == grid_px(width as nat, y as nat, f) + concat_px(
                    x as nat,
                    |k: nat| f(k, y as nat),
                ),
            decreases width - x,
        {
            let r = crate::ppm::ramp(x, width);
            let g = crate::ppm::ramp(y, height);
            let m = (x ^ y) & 0xFF;
            assert(m < 256) by (bit_vector)
                requires
                    m == (x ^ y) & 0xFF,
            ;
            let b = m as u8;
            push3(&mut px, r, g, b);
            x = x + 1;
        }
        y = y + 1;
    }
    result_image(width, height, px)
}

/// Every pixel `(10, 20, 30)`.
pub fn solid(width: u32, height: u32) -> (r: Result<Image, DbpxError>)
    requires
        width * height * 3 <= u32::MAX,
    ensures
        match r {
            Ok(img) => rgb_image(width, height, concat_px((width * height) as nat, solid_px()))
                == Ok::<ImageView, crate::error::ErrorKind>(img@),
            Err(e) => rgb_image(width, height, concat_px((width * height) as nat, solid_px()))
                == Err::<ImageView, crate::error::ErrorKind>(e.kind),
        },
{
    let n = width * height;
    let mut px: Vec<u8> = Vec::with_capacity((n * 3) as usize);
    let mut i: u32 = 0;
    while i < n
        invariant
            i <= n,
            px@ == concat_px(i as nat, solid_px()),
        decreases n - i,
    {
        push3(&mut px, 10, 20, 30);
        i = i + 1;
    }
    result_image(width, height, px)
}

/// Pixels alternating `(10, 20, 30)` and `(40, 50, 60)` in raster order.
pub fn flat2(width: u32, height: u32) -> (r: Result<Image, DbpxError>)
    requires
        width * height * 3 <= u32::MAX,
    ensures
        match r {
            Ok(img) => rgb_image(width, height, concat_px((width * height) as nat, flat2_px()))
                == Ok::<ImageView, crate::error::ErrorKind>(img@),
            Err(e) => rgb_image(width, height, concat_px((width * height) as nat, flat2_px()))
                == Err::<ImageView, crate::error::ErrorKind>(e.kind),
        },
{
    let n = width * height;
    let mut px: Vec<u8> = Vec::with_capacity((n * 3) as usize);
    let mut i: u32 = 0;
    while i < n
        invariant
            i <= n,
            px@ == concat_px(i as nat, flat2_px()),
        decreases n - i,
    {
        if i % 2 == 0 {
            push3(&mut px, 10, 20, 30);
        } else {
            push3(&mut px, 40, 50, 60);
        }
        i = i + 1;
    }
    result_image(width, height, px)
}

/// Rows alternating light `(220, 220, 220)` and dark `(20, 20, 20)`.
pub fn stripes(width: u32, height: u32) -> (r: Result<Image, DbpxError>)
    requires
        width * height * 3 <= u32::MAX,
    ensures
        match r {
            Ok(img) => rgb_image(width, height, grid_px(width as nat, height as nat, stripes_px()))
                == Ok::<ImageView, crate::error::ErrorKind>(img@),
            Err(e) => rgb_image(width, height, grid_px(width as nat, height as nat, stripes_px()))
                == Err::<ImageView, crate::error::ErrorKind>(e.kind),
        },
{
    let ghost f = stripes_px();
    let mut px: Vec<u8> = Vec::with_capacity((width * height * 3) as usize);
    let mut y: u32 = 0;
    while y < height
        invariant
            y <= height,
            f == stripes_px(),
            px@ == grid_px(width as nat, y as nat, f),
        decreases height - y,
    {
        let c: u8 = if y % 2 == 0 {
            220
        } else {
            20
        };
        let mut x: u32 = 0;
        while x < width
            invariant
                x <= width,
                y < height,
                f == stripes_px(),
                c == (if y % 2 == 0 { 220u8 } else { 20u8 }),
                px@ == grid_px(width as nat, y as nat, f) + concat_px(
                    x as nat,
                    |k: nat| f(k, y as nat),
                ),
            decreases width - x,
        {
            push3(&mut px, c, c, c);
            x = x + 1;
        }
        y = y + 1;
    }
    result_image(width, height, px)
}

} // verus!
