//! From an image to its pixel payload and back, for each compression mode.

use crate::bytes::append_bytes;
use crate::error::{DbpxError, ErrorKind};
use crate::image::{expected_len, expected_len_spec, pixel_count, pixels, Image, ImageView, Info};
use crate::indexed::{decode_indexed_rgba, encode_indexed, indexed_decode_spec, indexed_encode_spec};
use crate::pixel::{image_rgba, pack, pack_spec};
use crate::rle::{decode_rle_rgba, encode_rle, rle_decode_spec, rle_encode_spec};
use crate::types::Compression;
use vstd::prelude::*;

verus! {

/// The payload that compression mode `comp` stores for an image (the run-
/// length and indexed codecs read its first `width * height` pixels).
pub open spec fn payload_spec(img: ImageView, comp: Compression) -> Result<Seq<u8>, ErrorKind> {
    match comp {
        Compression::RAW => Ok(img.pixels),
        Compression::RLE => Ok(rle_encode_spec(image_rgba(img))),
        Compression::INDEXED => indexed_encode_spec(image_rgba(img)),
    }
}

/// The pixel count of a `w` by `h` image as the decoder holds it, in a
/// `usize`.
pub open spec fn pixel_total(w: u32, h: u32) -> nat {
    (pixel_count(w, h) as usize) as nat
}

/// The pixels that a raw payload gives: the payload itself, if it holds
/// exactly the image's pixel bytes.
pub open spec fn raw_spec(meta: Info, p: Seq<u8>) -> Result<Seq<u8>, ErrorKind> {
    match expected_len_spec(meta.width, meta.height, meta.color) {
        Err(e) => Err(e),
        Ok(n) => if p.len() != n {
            Err(ErrorKind::BadPixelLength { expected: n, got: p.len() as usize })
        } else {
            Ok(p)
        },
    }
}

/// The pixels, in the image's colour type, that an RLE payload gives.
pub open spec fn rle_pixels_spec(meta: Info, p: Seq<u8>) -> Result<Seq<u8>, ErrorKind> {
    match rle_decode_spec(p, pixel_total(meta.width, meta.height)) {
        Err(e) => Err(e),
        Ok(px) => Ok(pack_spec(meta.color, px)),
    }
}

/// The pixels, in the image's colour type, that an indexed payload gives.
pub open spec fn indexed_pixels_spec(meta: Info, p: Seq<u8>) -> Result<Seq<u8>, ErrorKind> {
    match indexed_decode_spec(p, pixel_total(meta.width, meta.height)) {
        Err(e) => Err(e),
        Ok(px) => Ok(pack_spec(meta.color, px)),
    }
}

/// The pixel bytes that a payload gives for the image described by `meta`,
/// by its compression mode.
pub open spec fn pixels_spec(meta: Info, p: Seq<u8>) -> Result<Seq<u8>, ErrorKind> {
    match meta.compression {
        Compression::RAW => raw_spec(meta, p),
        Compression::RLE => rle_pixels_spec(meta, p),
        Compression::INDEXED => indexed_pixels_spec(meta, p),
    }
}

/// The payload of an image under compression mode `comp`.
pub fn encode_payload(img: &Image, comp: Compression) -> (r: Result<Vec<u8>, DbpxError>)
    requires
        comp != Compression::RAW ==> img@.has_pixels(),
    ensures
        match r {
            Ok(p) => payload_spec(img@, comp) == Ok::<Seq<u8>, ErrorKind>(p@),
            Err(e) => payload_spec(img@, comp) == Err::<Seq<u8>, ErrorKind>(e.kind),
        },
{
    match comp {
        Compression::RAW => {
            let mut v: Vec<u8> = Vec::new();
            append_bytes(&mut v, img.pixels.as_slice());
            Ok(v)
        },
        Compression::RLE => Ok(encode_rle(img)),
        Compression::INDEXED => encode_indexed(img),
    }
}

/// Raw pixels: the payload, if it has exactly the image's pixel byte count.
pub fn raw(meta: &Info, payload: &[u8]) -> (r: Result<Vec<u8>, DbpxError>)
    ensures
        match r {
            Ok(v) => raw_spec(*meta, payload@) == Ok::<Seq<u8>, ErrorKind>(v@),
            Err(e) => raw_spec(*meta, payload@) == Err::<Seq<u8>, ErrorKind>(e.kind),
        },
{
    let expected = expected_len(meta.width, meta.height, meta.color)?;
    if payload.len() != expected {
        return Err(DbpxError::of(ErrorKind::BadPixelLength { expected, got: payload.len() }));
    }
    let mut v: Vec<u8> = Vec::new();
    append_bytes(&mut v, payload);
    Ok(v)
}

/// Pixels of an RLE payload, in the image's colour type.
pub fn decode_rle(meta: &Info, payload: &[u8]) -> (r: Result<Vec<u8>, DbpxError>)
    ensures
        match r {
            Ok(v) => rle_pixels_spec(*meta, payload@) == Ok::<Seq<u8>, ErrorKind>(v@),
            Err(e) => rle_pixels_spec(*meta, payload@) == Err::<Seq<u8>, ErrorKind>(e.kind),
        },
{
    let total = #[verifier::truncate] (pixels(meta.width, meta.height) as usize);
    let rgba = decode_rle_rgba(payload, total)?;
    Ok(pack(rgba.as_slice(), meta.color))
}

/// Pixels of an indexed payload, in the image's colour type.
pub fn decode_indexed(meta: &Info, payload: &[u8]) -> (r: Result<Vec<u8>, DbpxError>)
    ensures
        match r {
            Ok(v) => indexed_pixels_spec(*meta, payload@) == Ok::<Seq<u8>, ErrorKind>(v@),
            Err(e) => indexed_pixels_spec(*meta, payload@) == Err::<Seq<u8>, ErrorKind>(e.kind),
        },
{
    let total = #[verifier::truncate] (pixels(meta.width, meta.height) as usize);
    let rgba = decode_indexed_rgba(payload, total)?;
    Ok(pack(rgba.as_slice(), meta.color))
}

} // verus!
