//! Pixels as RGBA quadruples: reading them out of an image's bytes and
//! packing them back into a colour type's layout.

use crate::bytes::append_bytes;
use crate::image::{Image, ImageView};
use crate::types::ColorType;
use vstd::prelude::*;

verus! {

/// One straight-alpha RGBA pixel.
#[derive(Debug, Clone, Copy, PartialEq, Eq, Structural)]
pub struct Rgba {
    pub r: u8,
    pub g: u8,
    pub b: u8,
    pub a: u8,
}

/// Pixel `i` of the bytes `p` laid out as colour type `c`, as RGBA: grey
/// levels spread to all three colours, and opaque alpha where `c` has none.
pub open spec fn pixel_at(c: ColorType, p: Seq<u8>, i: int) -> Rgba {
    match c {
        ColorType::GRAY8 => Rgba { r: p[i], g: p[i], b: p[i], a: 255 },
        ColorType::RGB8 => Rgba { r: p[3 * i], g: p[3 * i + 1], b: p[3 * i + 2], a: 255 },
        ColorType::RGBA8 => Rgba {
            r: p[4 * i],
            g: p[4 * i + 1],
            b: p[4 * i + 2],
            a: p[4 * i + 3],
        },
    }
}

/// The first `n` pixels of `p` (laid out as `c`) as RGBA.
pub open spec fn to_rgba(c: ColorType, p: Seq<u8>, n: nat) -> Seq<Rgba> {
    Seq::new(n, |i: int| pixel_at(c, p, i))
}

/// The pixels of an image as RGBA, in raster order.
pub open spec fn image_rgba(img: ImageView) -> Seq<Rgba> {
    to_rgba(img.color, img.pixels, (img.width * img.height) as nat)
}

/// The bytes that colour type `c` stores for the pixel `x`.
pub open spec fn px_bytes(c: ColorType, x: Rgba) -> Seq<u8> {
    match c {
        ColorType::GRAY8 => seq![x.r],
        ColorType::RGB8 => seq![x.r, x.g, x.b],
        ColorType::RGBA8 => seq![x.r, x.g, x.b, x.a],
    }
}

/// RGBA pixels stored in colour type `c`'s layout: the red channel for grey,
/// alpha dropped for RGB.
pub open spec fn pack_spec(c: ColorType, s: Seq<Rgba>) -> Seq<u8>
    decreases s.len(),
{
    if s.len() == 0 {
        Seq::empty()
    } else {
        pack_spec(c, s.drop_last()) + px_bytes(c, s.last())
    }
}

/// The RGB bytes of an image's pixel bytes `p`.
pub open spec fn rgb_spec(c: ColorType, p: Seq<u8>) -> Seq<u8> {
    match c {
        ColorType::RGB8 => p,
        _ => pack_spec(ColorType::RGB8, to_rgba(c, p, p.len() / c.spec_channels())),
    }
}

pub proof fn lemma_pack_len(c: ColorType, s: Seq<Rgba>)
    ensures
        pack_spec(c, s).len() == s.len() * c.spec_channels(),
    decreases s.len(),
{
    if s.len() > 0 {
        lemma_pack_len(c, s.drop_last());
        assert(s.len() * c.spec_channels() == (s.len() - 1) * c.spec_channels()
            + c.spec_channels()) by (nonlinear_arith);
    }
}

/// Packing the RGBA form of `n` pixels of `p` gives back their bytes.
pub proof fn lemma_pack_to_rgba(c: ColorType, p: Seq<u8>, n: nat)
    requires
        n * c.spec_channels() <= p.len(),
    ensures
        pack_spec(c, to_rgba(c, p, n)) == p.take((n * c.spec_channels()) as int),
    decreases n,
{
    let ch = c.spec_channels();
    if n == 0 {
        assert(p.take(0) =~= Seq::<u8>::empty());
    } else {
        let m = (n - 1) as nat;
        assert(m * ch + ch == n * ch) by (nonlinear_arith)
            requires
                m + 1 == n,
        ;
        assert(m * ch <= p.len());
        assert(to_rgba(c, p, n).drop_last() =~= to_rgba(c, p, m));
        lemma_pack_to_rgba(c, p, m);
        let x = pixel_at(c, p, m as int);
        assert(px_bytes(c, x) =~= p.subrange((m * ch) as int, (n * ch) as int));
        assert(p.take((n * ch) as int) =~= p.take((m * ch) as int) + p.subrange((m * ch) as int, (n * ch) as int));
    }
}

/// Pixel `i` of an image as RGBA: a grey byte spread to red, green and blue;
/// three RGB bytes; or four RGBA bytes, in that order; alpha 255 where the
/// colour type has none.
pub proof fn lemma_pixel_bytes(c: ColorType, p: Seq<u8>, n: nat, i: int)
    requires
        0 <= i < n,
    ensures
        c == ColorType::GRAY8 ==> to_rgba(c, p, n)[i] == (Rgba { r: p[i], g: p[i], b: p[i], a: 255 }),
        c == ColorType::RGB8 ==> to_rgba(c, p, n)[i] == (Rgba {
            r: p[3 * i],
            g: p[3 * i + 1],
            b: p[3 * i + 2],
            a: 255,
        }),
        c == ColorType::RGBA8 ==> to_rgba(c, p, n)[i] == (Rgba {
            r: p[4 * i],
            g: p[4 * i + 1],
            b: p[4 * i + 2],
            a: p[4 * i + 3],
        }),
{
}

/// Packed RGBA pixels: pixel `i` takes bytes `i * channels ..`, holding red
/// (grey), red green blue (RGB), or red green blue alpha (RGBA), in order.
pub proof fn lemma_pack_bytes(c: ColorType, s: Seq<Rgba>, i: int)
    requires
        0 <= i < s.len(),
    ensures
        pack_spec(c, s).len() == s.len() * c.spec_channels(),
        c == ColorType::GRAY8 ==> pack_spec(c, s)[i] == s[i].r,
        c == ColorType::RGB8 ==> pack_spec(c, s)[3 * i] == s[i].r && pack_spec(c, s)[3 * i + 1]
            == s[i].g && pack_spec(c, s)[3 * i + 2] == s[i].b,
        c == ColorType::RGBA8 ==> pack_spec(c, s)[4 * i] == s[i].r && pack_spec(c, s)[4 * i + 1]
            == s[i].g && pack_spec(c, s)[4 * i + 2] == s[i].b && pack_spec(c, s)[4 * i + 3]
            == s[i].a,
    decreases s.len(),
{
    lemma_pack_len(c, s);
    let front = s.drop_last();
    lemma_pack_len(c, front);
    if i < s.len() - 1 {
        lemma_pack_bytes(c, front, i);
        assert(front[i] == s[i]);
        assert(front.len() * c.spec_channels() >= (i + 1) * c.spec_channels()) by (nonlinear_arith)
            requires
                i + 1 <= front.len(),
        ;
    }
}

/// The RGB bytes of pixel `i`: a grey byte three times, RGB bytes as they
/// are, RGBA bytes without alpha.
pub proof fn lemma_rgb_bytes(c: ColorType, p: Seq<u8>, i: int)
    requires
        0 <= i < p.len() / c.spec_channels(),
    ensures
        rgb_spec(c, p).len() >= 3 * i + 3,
        c == ColorType::GRAY8 ==> rgb_spec(c, p)[3 * i] == p[i] && rgb_spec(c, p)[3 * i + 1] == p[i]
            && rgb_spec(c, p)[3 * i + 2] == p[i],
        c == ColorType::RGB8 ==> rgb_spec(c, p)[3 * i] == p[3 * i] && rgb_spec(c, p)[3 * i + 1]
            == p[3 * i + 1] && rgb_spec(c, p)[3 * i + 2] == p[3 * i + 2],
        c == ColorType::RGBA8 ==> rgb_spec(c, p)[3 * i] == p[4 * i] && rgb_spec(c, p)[3 * i + 1]
            == p[4 * i + 1] && rgb_spec(c, p)[3 * i + 2] == p[4 * i + 2],
{
    let n = p.len() / c.spec_channels();
    if c == ColorType::RGB8 {
        assert(3 * i + 3 <= p.len()) by (nonlinear_arith)
            requires
                0 <= i < p.len() / 3,
        ;
    } else {
        let s = to_rgba(c, p, n);
        lemma_pack_bytes(ColorType::RGB8, s, i);
        lemma_pixel_bytes(c, p, n, i);
        assert(3 * i + 3 <= n * 3) by (nonlinear_arith)
            requires
                0 <= i < n,
        ;
    }
}

/// Pixel `i` of `img` as RGBA.
pub fn rgba(img: &Image, i: usize) -> (x: Rgba)
    requires
        (i + 1) * img.color.spec_channels() <= img.pixels@.len(),
    ensures
        x == pixel_at(img.color, img.pixels@, i as int),
{
    let len = img.pixels.len();
    match img.color {
        ColorType::GRAY8 => {
            let g = img.pixels[i];
            Rgba { r: g, g, b: g, a: 255 }
        },
        ColorType::RGB8 => {
            assert(i * 3 + 3 <= len) by (nonlinear_arith)
                requires
                    (i + 1) * 3 <= len,
            ;
            let b = i * 3;
            Rgba { r: img.pixels[b], g: img.pixels[b + 1], b: img.pixels[b + 2], a: 255 }
        },
        ColorType::RGBA8 => {
            assert(i * 4 + 4 <= len) by (nonlinear_arith)
                requires
                    (i + 1) * 4 <= len,
            ;
            let b = i * 4;
            Rgba {
                r: img.pixels[b],
                g: img.pixels[b + 1],
                b: img.pixels[b + 2],
                a: img.pixels[b + 3],
            }
        },
    }
}

/// Appends the bytes that `c` stores for `x`.
pub fn push_px(out: &mut Vec<u8>, c: ColorType, x: Rgba)
    ensures
        final(out)@ == old(out)@ + px_bytes(c, x),
{
    match c {
        ColorType::GRAY8 => {
            out.push(x.r);
        },
        ColorType::RGB8 => {
            out.push(x.r);
            out.push(x.g);
            out.push(x.b);
        },
        ColorType::RGBA8 => {
            out.push(x.r);
            out.push(x.g);
            out.push(x.b);
            out.push(x.a);
        },
    }
    assert(final(out)@ =~= old(out)@ + px_bytes(c, x));
}

/// Stores RGBA pixels in colour type `c`'s layout.
pub fn pack(rgba: &[Rgba], c: ColorType) -> (out: Vec<u8>)
    ensures
        out@ == pack_spec(c, rgba@),
{
    let mut out = Vec::new();
    let mut i: usize = 0;
    while i < rgba.len()
        invariant
            i <= rgba.len(),
            out@ == pack_spec(c, rgba@.take(i as int)),
        decreases rgba.len() - i,
    {
        push_px(&mut out, c, rgba[i]);
        assert(rgba@.take(i + 1).drop_last() =~= rgba@.take(i as int));
        i = i + 1;
    }
    assert(rgba@.take(i as int) =~= rgba@);
    out
}

/// The image's pixels as RGB bytes: grey levels repeated three times, RGB as
/// it is, and RGBA with alpha dropped (a trailing partial pixel is ignored).
pub fn rgb_bytes(img: &Image) -> (out: Vec<u8>)
    requires
        img.width * img.height * 3 <= usize::MAX,
    ensures
        out@ == rgb_spec(img.color, img.pixels@),
{
    let cap = img.width as usize * img.height as usize * 3;
    let mut out = Vec::with_capacity(cap);
    match img.color {
        ColorType::RGB8 => {
            append_bytes(&mut out, img.pixels.as_slice());
            assert(out@ =~= img.pixels@);
        },
        _ => {
            let ch = img.color.channels();
            let n = img.pixels.len() / ch;
            let mut i: usize = 0;
            while i < n
                invariant
                    i <= n,
                    ch == img.color.spec_channels(),
                    n == img.pixels@.len() / (ch as nat),
                    img.color != ColorType::RGB8,
                    out@ == pack_spec(
                        ColorType::RGB8,
                        to_rgba(img.color, img.pixels@, i as nat),
                    ),
                decreases n - i,
            {
                assert((i + 1) * ch <= img.pixels@.len()) by (nonlinear_arith)
                    requires
                        i < n,
                        n == img.pixels@.len() / (ch as nat),
                        ch > 0,
                ;
                let x = rgba(img, i);
                push_px(&mut out, ColorType::RGB8, x);
                assert(to_rgba(img.color, img.pixels@, (i + 1) as nat).drop_last() =~= to_rgba(
                    img.color,
                    img.pixels@,
                    i as nat,
                ));
                i = i + 1;
            }
        },
    }
    out
}

/// RGB bytes as `0x00RRGGBB` words, one per whole pixel, as a display
/// bitmap takes them (a trailing partial pixel is ignored).
pub open spec fn xrgb_spec(rgb: Seq<u8>) -> Seq<u32> {
    Seq::new(
        rgb.len() / 3,
        |i: int| (rgb[3 * i] * 0x10000 + rgb[3 * i + 1] * 0x100 + rgb[3 * i + 2]) as u32,
    )
}

/// Word `i` of the packed pixels holds red in bits 16 to 23, green in bits
/// 8 to 15 and blue in bits 0 to 7, from bytes `3 * i`, `3 * i + 1` and
/// `3 * i + 2`; the top byte is zero.
pub proof fn lemma_xrgb_fields(rgb: Seq<u8>, i: int)
    requires
        0 <= i < rgb.len() / 3,
    ensures
        xrgb_spec(rgb).len() == rgb.len() / 3,
        xrgb_spec(rgb)[i] / 0x10000 == rgb[3 * i],
        (xrgb_spec(rgb)[i] / 0x100) % 0x100 == rgb[3 * i + 1],
        xrgb_spec(rgb)[i] % 0x100 == rgb[3 * i + 2],
{
    let r = rgb[3 * i] as int;
    let g = rgb[3 * i + 1] as int;
    let b = rgb[3 * i + 2] as int;
    assert(3 * i + 3 <= rgb.len());
    let w = r * 0x10000 + g * 0x100 + b;
    assert(w < 0x1000000);
    assert(xrgb_spec(rgb)[i] == w);
    assert(w / 0x10000 == r && (w / 0x100) % 0x100 == g && w % 0x100 == b) by (nonlinear_arith)
        requires
            0 <= r < 256,
            0 <= g < 256,
            0 <= b < 256,
            w == r * 0x10000 + g * 0x100 + b,
    ;
}

/// Packs RGB bytes into `0x00RRGGBB` words.
pub fn xrgb_pixels(rgb: &[u8]) -> (out: Vec<u32>)
    ensures
        out@ == xrgb_spec(rgb@),
{
    let len = rgb.len();
    let n = len / 3;
    let mut out: Vec<u32> = Vec::with_capacity(n);
    let mut i: usize = 0;
    while i < n
        invariant
            i <= n,
            n == rgb@.len() / 3,
            len == rgb@.len(),
            out@ == xrgb_spec(rgb@).take(i as int),
        decreases n - i,
    {
        assert(3 * i + 3 <= rgb@.len());
        let r = rgb[3 * i] as u32;
        let g = rgb[3 * i + 1] as u32;
        let b = rgb[3 * i + 2] as u32;
        let word = (r << 16) | (g << 8) | b;
        assert(word == r * 0x10000 + g * 0x100 + b) by (bit_vector)
            requires
                r < 256,
                g < 256,
                b < 256,
                word == (r << 16) | (g << 8) | b,
        ;
        out.push(word);
        assert(out@ =~= xrgb_spec(rgb@).take(i + 1));
        i = i + 1;
    }
    assert(out@ =~= xrgb_spec(rgb@));
    out
}

} // verus!
