//! Properties of the codec as a whole: what decoding gives back of an
//! encoding, and what the header reports of it.

use crate::bytes::{le_u16, le_u32, le_u64};
use crate::container::{chunk_spec, decode_spec, encode_auto_spec, encode_spec, header_error, header_spec, parse_spec, walk};
use crate::crc::spec_crc_chunk;
use crate::error::ErrorKind;
use crate::image::{dims_ok, lemma_pixel_count_bound, lemma_shape_error_none, lemma_shape_fits, pixel_count, ImageView, Info};
use crate::indexed::lemma_indexed_roundtrip;
use crate::payload::{payload_spec, pixels_spec};
use crate::pixel::{image_rgba, lemma_pack_to_rgba};
use crate::rle::{lemma_rle_encode_len, lemma_rle_roundtrip};
use crate::types::{ColorType, Compression, END, MAGIC, MAX_PIXELS, PXLS};
use vstd::bytes::*;
use vstd::prelude::*;

verus! {

proof fn lemma_chunk_len(t: Seq<u8>, body: Seq<u8>)
    ensures
        chunk_spec(t, body).len() == t.len() + 12 + body.len(),
{
    lemma_auto_spec_u64_to_from_le_bytes();
    lemma_auto_spec_u32_to_from_le_bytes();
}

/// Reading back the fields of a chunk written at `off`.
proof fn lemma_chunk_fields(d: Seq<u8>, off: int, t: Seq<u8>, body: Seq<u8>)
    requires
        0 <= off,
        t.len() == 4,
        body.len() <= u64::MAX,
        off + 16 + body.len() <= d.len(),
        d.subrange(off, off + 16 + body.len()) == chunk_spec(t, body),
    ensures
        d.subrange(off, off + 4) == t,
        le_u64(d, off + 4) == body.len(),
        le_u32(d, off + 12) == spec_crc_chunk(t, body),
        d.subrange(off + 16, off + 16 + body.len()) == body,
{
    lemma_auto_spec_u64_to_from_le_bytes();
    lemma_auto_spec_u32_to_from_le_bytes();
    let c = chunk_spec(t, body);
    let lb = spec_u64_to_le_bytes(body.len() as u64);
    let cb = spec_u32_to_le_bytes(spec_crc_chunk(t, body));
    assert(c == t + lb + cb + body);
    assert(d.subrange(off, off + 4) =~= c.subrange(0, 4));
    assert(c.subrange(0, 4) =~= t);
    assert(d.subrange(off + 4, off + 12) =~= c.subrange(4, 12));
    assert(c.subrange(4, 12) =~= lb);
    assert(d.subrange(off + 12, off + 16) =~= c.subrange(12, 16));
    assert(c.subrange(12, 16) =~= cb);
    assert(d.subrange(off + 16, off + 16 + body.len()) =~= c.subrange(16, 16 + body.len() as int));
    assert(c.subrange(16, 16 + body.len() as int) =~= body);
}

/// The chunk walk over a `PXLS` chunk holding `p` followed by an empty
/// `END!` chunk, that end the data.
proof fn lemma_walk_two_chunks(d: Seq<u8>, off: int, p: Seq<u8>)
    requires
        0 <= off <= d.len(),
        d.len() <= usize::MAX,
        d.subrange(off, d.len() as int) == chunk_spec(PXLS@, p) + chunk_spec(END@, Seq::empty()),
    ensures
        walk(d, off, 0, None) == Ok::<(int, u32, Option<(usize, usize)>, bool), ErrorKind>(
            (d.len() as int, 2u32, Some(((off + 16) as usize, (off + 16 + p.len()) as usize)), true),
        ),
{
    lemma_auto_spec_u64_to_from_le_bytes();
    lemma_auto_spec_u32_to_from_le_bytes();
    let c1 = chunk_spec(PXLS@, p);
    let c2 = chunk_spec(END@, Seq::<u8>::empty());
    lemma_chunk_len(PXLS@, p);
    lemma_chunk_len(END@, Seq::<u8>::empty());
    assert(c1.len() == 16 + p.len());
    assert(c2.len() == 16);
    assert(d.subrange(off, d.len() as int).len() == d.len() - off);
    let mid = off + 16 + p.len();
    assert(d.len() == mid + 16);
    assert(d.subrange(off, mid) =~= c1) by {
        assert(d.subrange(off, mid) =~= d.subrange(off, d.len() as int).subrange(0, c1.len() as int));
    }
    assert(d.subrange(mid, mid + 16) =~= c2) by {
        assert(d.subrange(mid, mid + 16) =~= d.subrange(off, d.len() as int).subrange(
            c1.len() as int,
            c1.len() + 16 as int,
        ));
    }
    lemma_chunk_fields(d, off, PXLS@, p);
    lemma_chunk_fields(d, mid, END@, Seq::<u8>::empty());
    assert(d.subrange(mid + 16, mid + 16) =~= Seq::<u8>::empty());
    assert(END@ != PXLS@) by {
        assert(END@[0] != PXLS@[0]);
    }
    assert(walk(d, mid, 1, Some(((off + 16) as usize, mid as usize))) == Ok::<
        (int, u32, Option<(usize, usize)>, bool),
        ErrorKind,
    >((mid + 16, 2u32, Some(((off + 16) as usize, mid as usize)), true)));
}

/// The bytes of the encoded file, and what its header reads as.
proof fn lemma_header_fields(w: u32, h: u32, c: ColorType, comp: Compression, rest: Seq<u8>)
    requires
        dims_ok(w, h),
    ensures
        ({
            let d = header_spec(w, h, c, comp) + rest;
            &&& header_spec(w, h, c, comp).len() == 28
            &&& header_error(d) is None
            &&& le_u32(d, 12) == w
            &&& le_u32(d, 16) == h
            &&& le_u32(d, 24) == 2
            &&& d[20] == c.spec_id()
            &&& d[22] == comp.spec_id()
            &&& d.subrange(28, d.len() as int) == rest
        }),
{
    lemma_auto_spec_u16_to_from_le_bytes();
    lemma_auto_spec_u32_to_from_le_bytes();
    let hd = header_spec(w, h, c, comp);
    let d = hd + rest;
    assert(hd.len() == 28);
    assert(d.subrange(0, 8) =~= MAGIC@);
    assert(d.subrange(10, 12) =~= spec_u16_to_le_bytes(28));
    assert(d.subrange(12, 16) =~= spec_u32_to_le_bytes(w));
    assert(d.subrange(16, 20) =~= spec_u32_to_le_bytes(h));
    assert(d.subrange(24, 28) =~= spec_u32_to_le_bytes(2));
    assert(d.subrange(28, d.len() as int) =~= rest);
    assert(d[20] == c.spec_id());
    assert(d[22] == comp.spec_id());
    assert(ColorType::spec_from_id(c.spec_id()) == Some(c));
    assert(Compression::spec_from_id(comp.spec_id()) == Some(comp));
}

/// Payloads are small enough to frame in a file.
proof fn lemma_payload_bound(img: ImageView, comp: Compression)
    requires
        img.wf(),
        payload_spec(img, comp) is Ok,
    ensures
        payload_spec(img, comp)->Ok_0.len() <= 0x2000_0000,
{
    lemma_pixel_count_bound(img.width, img.height);
    lemma_shape_fits(img.width, img.height, img.color);
    let px = image_rgba(img);
    match comp {
        Compression::RAW => {},
        Compression::RLE => {
            lemma_rle_encode_len(px, 0);
        },
        Compression::INDEXED => {
            crate::indexed::lemma_indexed_len(px);
        },
    }
}

/// Decoding the pixel payload of a well-formed image gives its pixels back.
proof fn lemma_pixels_roundtrip(img: ImageView, comp: Compression)
    requires
        img.wf(),
        payload_spec(img, comp) is Ok,
    ensures
        pixels_spec(
            Info {
                width: img.width,
                height: img.height,
                color: img.color,
                compression: comp,
                pixel_payload_len: payload_spec(img, comp)->Ok_0.len() as u64,
            },
            payload_spec(img, comp)->Ok_0,
        ) == Ok::<Seq<u8>, ErrorKind>(img.pixels),
{
    lemma_pixel_count_bound(img.width, img.height);
    lemma_shape_fits(img.width, img.height, img.color);
    let total = pixel_count(img.width, img.height);
    let px = image_rgba(img);
    let ch = img.color.spec_channels();
    match comp {
        Compression::RAW => {},
        Compression::RLE => {
            lemma_rle_roundtrip(px);
            lemma_pack_to_rgba(img.color, img.pixels, total);
            assert(img.pixels.take((total * ch) as int) =~= img.pixels);
        },
        Compression::INDEXED => {
            lemma_indexed_roundtrip(px);
            lemma_pack_to_rgba(img.color, img.pixels, total);
            assert(img.pixels.take((total * ch) as int) =~= img.pixels);
        },
    }
}

/// What the header of an encoded file says, and where its payload is.
pub proof fn lemma_parse_encode(img: ImageView, comp: Compression)
    requires
        img.pixels.len() <= usize::MAX,
        encode_spec(img, comp) is Ok,
    ensures
        img.wf(),
        parse_spec(encode_spec(img, comp)->Ok_0) == Ok::<(Info, Seq<u8>), ErrorKind>(
            (
                Info {
                    width: img.width,
                    height: img.height,
                    color: img.color,
                    compression: comp,
                    pixel_payload_len: payload_spec(img, comp)->Ok_0.len() as u64,
                },
                payload_spec(img, comp)->Ok_0,
            ),
        ),
{
    lemma_shape_error_none(img);
    lemma_payload_bound(img, comp);
    let p = payload_spec(img, comp)->Ok_0;
    let rest = chunk_spec(PXLS@, p) + chunk_spec(END@, Seq::empty());
    let d = encode_spec(img, comp)->Ok_0;
    assert(d == header_spec(img.width, img.height, img.color, comp) + rest);
    lemma_header_fields(img.width, img.height, img.color, comp, rest);
    lemma_chunk_len(PXLS@, p);
    lemma_chunk_len(END@, Seq::<u8>::empty());
    assert(rest.len() == 32 + p.len());
    lemma_walk_two_chunks(d, 28, p);
    assert(d.subrange(44, 44 + p.len() as int) =~= p) by {
        assert(d.subrange(28, 44 + p.len() as int) =~= rest.subrange(0, 16 + p.len() as int));
        assert(rest.subrange(0, 16 + p.len() as int) =~= chunk_spec(PXLS@, p));
        lemma_chunk_fields(d, 28, PXLS@, p);
    }
}

/// Decoding the file that encoding a well-formed image gives yields that
/// image again, for every compression mode that accepts it.
pub proof fn lemma_roundtrip(img: ImageView, comp: Compression)
    requires
        img.pixels.len() <= usize::MAX,
        encode_spec(img, comp) is Ok,
    ensures
        decode_spec(encode_spec(img, comp)->Ok_0) == Ok::<ImageView, ErrorKind>(img),
{
    lemma_parse_encode(img, comp);
    lemma_pixels_roundtrip(img, comp);
    lemma_shape_error_none(img);
}

/// Raw and run-length encoding accept exactly the well-formed images.
pub proof fn lemma_encode_accepts(img: ImageView, comp: Compression)
    requires
        img.pixels.len() <= usize::MAX,
        comp != Compression::INDEXED,
    ensures
        encode_spec(img, comp) is Ok <==> img.wf(),
{
    lemma_shape_error_none(img);
}

/// The automatic encoder's output is one of the encodings of the image, no
/// larger than any that succeeds, and it decodes to the image.
pub proof fn lemma_encode_auto(img: ImageView)
    requires
        img.pixels.len() <= usize::MAX,
        encode_auto_spec(img) is Ok,
    ensures
        ({
            let f = encode_auto_spec(img)->Ok_0;
            &&& exists|comp: Compression| encode_spec(img, comp) == Ok::<Seq<u8>, ErrorKind>(f)
            &&& forall|comp: Compression| #[trigger]
                encode_spec(img, comp) is Ok ==> f.len() <= encode_spec(img, comp)->Ok_0.len()
            &&& decode_spec(f) == Ok::<ImageView, ErrorKind>(img)
        }),
{
    let f = encode_auto_spec(img)->Ok_0;
    let raw = encode_spec(img, Compression::RAW)->Ok_0;
    let rle = encode_spec(img, Compression::RLE)->Ok_0;
    let ix = encode_spec(img, Compression::INDEXED);
    let best = if rle.len() < raw.len() {
        rle
    } else {
        raw
    };
    let comp = if ix is Ok && ix->Ok_0.len() < best.len() {
        Compression::INDEXED
    } else if rle.len() < raw.len() {
        Compression::RLE
    } else {
        Compression::RAW
    };
    assert(encode_spec(img, comp) == Ok::<Seq<u8>, ErrorKind>(f));
    assert forall|c: Compression| #[trigger] encode_spec(img, c) is Ok implies f.len()
        <= encode_spec(img, c)->Ok_0.len() by {
        match c {
            Compression::RAW => {},
            Compression::RLE => {},
            Compression::INDEXED => {},
        }
    }
    lemma_roundtrip(img, comp);
}

/// Indexed encoding accepts exactly the well-formed images with at most 256
/// distinct colours.
pub proof fn lemma_indexed_encode_accepts(img: ImageView)
    requires
        img.pixels.len() <= usize::MAX,
    ensures
        encode_spec(img, Compression::INDEXED) is Ok <==> img.wf() && image_rgba(img).to_set().len()
            <= 256,
{
    lemma_shape_error_none(img);
    lemma_pixel_count_bound(img.width, img.height);
    crate::indexed::lemma_indexed_accepts(image_rgba(img));
}

/// Every image that decoding yields obeys the shape rules.
pub proof fn lemma_decode_wf(d: Seq<u8>)
    ensures
        decode_spec(d) matches Ok(img) ==> img.wf(),
{
    if let Ok((meta, p)) = parse_spec(d) {
        assert(dims_ok(meta.width, meta.height));
        lemma_shape_fits(meta.width, meta.height, meta.color);
        lemma_pixel_count_bound(meta.width, meta.height);
        let total = pixel_count(meta.width, meta.height);
        match meta.compression {
            Compression::RAW => {},
            Compression::RLE => {
                if p.len() % 5 == 0 {
                    crate::rle::lemma_rle_expand_len(p, total, Seq::empty());
                }
                if let Ok(px) = crate::rle::rle_decode_spec(p, total) {
                    crate::pixel::lemma_pack_len(meta.color, px);
                }
            },
            Compression::INDEXED => {
                if p.len() > 0 {
                    let start = 1 + 4 * (p[0] + 1);
                    crate::indexed::lemma_index_expand_len(
                        p.subrange(1, start),
                        (p[0] + 1) as nat,
                        p.skip(start),
                        Seq::empty(),
                    );
                }
                if let Ok(px) = crate::indexed::indexed_decode_spec(p, total) {
                    crate::pixel::lemma_pack_len(meta.color, px);
                }
            },
        }
        if let Ok(px) = pixels_spec(meta, p) {
            assert(px.len() <= usize::MAX) by {
                assert(pixel_count(meta.width, meta.height) * meta.color.spec_channels() <= 4
                    * MAX_PIXELS);
            }
            lemma_shape_error_none(
                ImageView { width: meta.width, height: meta.height, color: meta.color, pixels: px },
            );
        }
    }
}

proof fn lemma_walk_extend(d: Seq<u8>, e: Seq<u8>, off: int, seen: u32, px: Option<(usize, usize)>)
    requires
        walk(d, off, seen, px) matches Ok((_, _, _, ended)) && ended,
    ensures
        walk(d + e, off, seen, px) == walk(d, off, seen, px),
    decreases d.len() - off,
{
    let de = d + e;
    let len = le_u64(d, off + 4);
    assert(de.subrange(off, off + 4) =~= d.subrange(off, off + 4));
    assert(de.subrange(off + 4, off + 12) =~= d.subrange(off + 4, off + 12));
    assert(de.subrange(off + 12, off + 16) =~= d.subrange(off + 12, off + 16));
    assert(le_u64(de, off + 4) == len);
    assert(le_u32(de, off + 12) == le_u32(d, off + 12));
    let start = off + 16;
    let end = start + len;
    assert(de.subrange(start, end) =~= d.subrange(start, end));
    assert(crate::container::arr4_at(de, off) == crate::container::arr4_at(d, off));
    if d.subrange(off, off + 4) == PXLS@ {
        lemma_walk_extend(d, e, end, (seen + 1) as u32, Some((start as usize, end as usize)));
    }
}

/// Bytes after the `END!` chunk are refused: appending any bytes to a
/// valid file makes the decoder report exactly that many trailing bytes.
pub proof fn lemma_trailing_data(d: Seq<u8>, extra: Seq<u8>)
    requires
        parse_spec(d) is Ok,
        extra.len() > 0,
        d.len() + extra.len() <= usize::MAX,
    ensures
        parse_spec(d + extra) == Err::<(Info, Seq<u8>), ErrorKind>(
            ErrorKind::TrailingData(extra.len() as usize),
        ),
        decode_spec(d + extra) == Err::<ImageView, ErrorKind>(
            ErrorKind::TrailingData(extra.len() as usize),
        ),
{
    let de = d + extra;
    assert(de.subrange(0, 8) =~= d.subrange(0, 8));
    assert(de.subrange(10, 12) =~= d.subrange(10, 12));
    assert(de.subrange(12, 16) =~= d.subrange(12, 16));
    assert(de.subrange(16, 20) =~= d.subrange(16, 20));
    assert(de.subrange(24, 28) =~= d.subrange(24, 28));
    assert(header_error(de) == header_error(d));
    lemma_walk_extend(d, extra, 28, 0, None);
    crate::container::lemma_valid_layout(d);
}

/// The chunk at `off` of `d` passes its CRC check; changing one byte of its
/// type, its stored CRC or its payload makes the chunk walk stop there with
/// a CRC mismatch.
proof fn lemma_chunk_step_detects(
    d: Seq<u8>,
    off: int,
    seen: u32,
    px: Option<(usize, usize)>,
    k: int,
    b: u8,
)
    requires
        0 <= off,
        off + 16 + le_u64(d, off + 4) <= d.len(),
        off + 16 + le_u64(d, off + 4) <= usize::MAX,
        spec_crc_chunk(d.subrange(off, off + 4), d.subrange(off + 16, off + 16 + le_u64(d, off + 4)))
            == le_u32(d, off + 12),
        off <= k < off + 4 || off + 12 <= k < off + 16 + le_u64(d, off + 4),
        d[k] != b,
    ensures
        walk(d.update(k, b), off, seen, px) matches Err(e) && e is CrcMismatch,
{
    let d2 = d.update(k, b);
    let n = le_u64(d, off + 4);
    let t = d.subrange(off, off + 4);
    let body = d.subrange(off + 16, off + 16 + n);
    assert(d2.subrange(off + 4, off + 12) =~= d.subrange(off + 4, off + 12));
    assert(le_u64(d2, off + 4) == n);
    if k < off + 4 {
        assert(d2.subrange(off, off + 4) =~= t.update(k - off, b));
        assert(d2.subrange(off + 16, off + 16 + n) =~= body);
        assert(d2.subrange(off + 12, off + 16) =~= d.subrange(off + 12, off + 16));
        crate::crc::lemma_chunk_crc_detects_type(t, body, k - off, b);
    } else if k < off + 16 {
        assert(d2.subrange(off, off + 4) =~= t);
        assert(d2.subrange(off + 16, off + 16 + n) =~= body);
        crate::bytes::lemma_le_u32_update(d, off + 12, k, b);
    } else {
        assert(d2.subrange(off, off + 4) =~= t);
        assert(d2.subrange(off + 12, off + 16) =~= d.subrange(off + 12, off + 16));
        assert(d2.subrange(off + 16, off + 16 + n) =~= body.update(k - off - 16, b));
        crate::crc::lemma_chunk_crc_detects(t, body, k - off - 16, b);
    }
}

/// Changing any one byte of a valid file's chunk types, stored CRCs or
/// payloads is detected: the decoder reports a CRC mismatch. (The header
/// and the chunk length fields have rules of their own.)
pub proof fn lemma_corruption_detected(d: Seq<u8>, k: int, b: u8)
    requires
        parse_spec(d) is Ok,
        d[k] != b,
        ({
            let mid = 44 + le_u64(d, 32);
            ||| 28 <= k < 32
            ||| 40 <= k < mid
            ||| mid <= k < mid + 4
            ||| mid + 12 <= k < d.len()
        }),
    ensures
        parse_spec(d.update(k, b)) matches Err(e) && e is CrcMismatch,
        decode_spec(d.update(k, b)) is Err,
{
    crate::container::lemma_valid_layout(d);
    let d2 = d.update(k, b);
    let n = le_u64(d, 32);
    let mid = 44 + n;
    assert(d2.subrange(0, 8) =~= d.subrange(0, 8));
    assert(d2.subrange(10, 12) =~= d.subrange(10, 12));
    assert(d2.subrange(12, 16) =~= d.subrange(12, 16));
    assert(d2.subrange(16, 20) =~= d.subrange(16, 20));
    assert(d2.subrange(24, 28) =~= d.subrange(24, 28));
    assert(header_error(d2) == header_error(d));
    let w = walk(d, 28, 0, None);
    assert(w is Ok);
    assert(d.subrange(28, 32) == PXLS@);
    if k < mid {
        lemma_chunk_step_detects(d, 28, 0, None, k, b);
    } else {
        let pr = Some((44usize, mid as usize));
        assert(w == walk(d, mid, 1, pr));
        assert(d2.subrange(28, 32) =~= d.subrange(28, 32));
        assert(d2.subrange(32, 40) =~= d.subrange(32, 40));
        assert(d2.subrange(40, 44) =~= d.subrange(40, 44));
        assert(d2.subrange(44, mid) =~= d.subrange(44, mid));
        assert(walk(d2, 28, 0, None) == walk(d2, mid, 1, pr));
        assert(d.subrange(mid, mid + 4) != PXLS@) by {
            assert(END@[0] != PXLS@[0]);
        }
        lemma_chunk_step_detects(d, mid, 1, pr, k, b);
    }
}

/// A file that decodes has a header that `info` reads, describing the
/// decoded image.
pub proof fn lemma_decode_info(d: Seq<u8>)
    requires
        decode_spec(d) is Ok,
    ensures
        parse_spec(d) matches Ok((meta, _)) && meta.width == decode_spec(d)->Ok_0.width
            && meta.height == decode_spec(d)->Ok_0.height && meta.color == decode_spec(
            d,
        )->Ok_0.color,
{
}

/// The pixel payload of a raw file is exactly the image's pixel bytes, in
/// order: the `PXLS` length field holds their count and the payload holds
/// the bytes themselves.
pub proof fn lemma_raw_payload(img: ImageView)
    requires
        img.pixels.len() <= usize::MAX,
        encode_spec(img, Compression::RAW) is Ok,
    ensures
        ({
            let f = encode_spec(img, Compression::RAW)->Ok_0;
            &&& le_u64(f, 32) == img.pixels.len()
            &&& f.subrange(44, 44 + img.pixels.len() as int) == img.pixels
        }),
{
    lemma_parse_encode(img, Compression::RAW);
    crate::container::lemma_valid_layout(encode_spec(img, Compression::RAW)->Ok_0);
}

/// Decoding a raw file gives its `PXLS` payload bytes, unchanged, as the
/// image's pixels.
pub proof fn lemma_raw_decode(d: Seq<u8>)
    requires
        decode_spec(d) is Ok,
        d[22] == 0,
    ensures
        decode_spec(d)->Ok_0.pixels == d.subrange(44, 44 + le_u64(d, 32)),
{
    crate::container::lemma_valid_layout(d);
}

/// The bytes of every encoded file: the magic, version 0.1, header size 28,
/// width and height little-endian, colour id, bit depth 8, compression id,
/// no flags, chunk count 2; then a `PXLS` chunk with the payload's length
/// and CRC-32 (of type and payload), the payload, and an empty `END!` chunk.
pub proof fn lemma_encoded_bytes(img: ImageView, comp: Compression)
    requires
        img.pixels.len() <= usize::MAX,
        encode_spec(img, comp) is Ok,
    ensures
        ({
            let f = encode_spec(img, comp)->Ok_0;
            let p = payload_spec(img, comp)->Ok_0;
            let n = p.len() as int;
            &&& f.len() == 60 + n
            &&& f.subrange(0, 8) == seq![0x44u8, 0x42u8, 0x50u8, 0x58u8, 0x0Du8, 0x0Au8, 0x1Au8, 0x0Au8]
            &&& f[8] == 0 && f[9] == 1
            &&& le_u16(f, 10) == 28
            &&& le_u32(f, 12) == img.width
            &&& le_u32(f, 16) == img.height
            &&& f[20] == (match img.color {
                ColorType::GRAY8 => 1u8,
                ColorType::RGB8 => 2u8,
                ColorType::RGBA8 => 3u8,
            })
            &&& f[21] == 8
            &&& f[22] == (match comp {
                Compression::RAW => 0u8,
                Compression::RLE => 1u8,
                Compression::INDEXED => 2u8,
            })
            &&& f[23] == 0
            &&& le_u32(f, 24) == 2
            &&& f.subrange(28, 32) == seq![0x50u8, 0x58u8, 0x4Cu8, 0x53u8]
            &&& le_u64(f, 32) == n
            &&& le_u32(f, 40) == spec_crc_chunk(seq![0x50u8, 0x58u8, 0x4Cu8, 0x53u8], p)
            &&& f.subrange(44, 44 + n) == p
            &&& f.subrange(44 + n, 48 + n) == seq![0x45u8, 0x4Eu8, 0x44u8, 0x21u8]
            &&& le_u64(f, 48 + n) == 0
            &&& le_u32(f, 56 + n) == spec_crc_chunk(seq![0x45u8, 0x4Eu8, 0x44u8, 0x21u8], Seq::empty())
        }),
{
    lemma_auto_spec_u16_to_from_le_bytes();
    lemma_auto_spec_u32_to_from_le_bytes();
    lemma_auto_spec_u64_to_from_le_bytes();
    lemma_shape_error_none(img);
    lemma_payload_bound(img, comp);
    let p = payload_spec(img, comp)->Ok_0;
    let n = p.len() as int;
    let f = encode_spec(img, comp)->Ok_0;
    let hd = header_spec(img.width, img.height, img.color, comp);
    let c1 = chunk_spec(PXLS@, p);
    let c2 = chunk_spec(END@, Seq::empty());
    lemma_chunk_len(PXLS@, p);
    lemma_chunk_len(END@, Seq::<u8>::empty());
    assert(f == hd + c1 + c2);
    assert(hd.len() == 28);
    assert(MAGIC@ =~= seq![0x44u8, 0x42u8, 0x50u8, 0x58u8, 0x0Du8, 0x0Au8, 0x1Au8, 0x0Au8]);
    assert(PXLS@ =~= seq![0x50u8, 0x58u8, 0x4Cu8, 0x53u8]);
    assert(END@ =~= seq![0x45u8, 0x4Eu8, 0x44u8, 0x21u8]);
    assert(f.subrange(0, 8) =~= MAGIC@);
    assert(f.subrange(10, 12) =~= spec_u16_to_le_bytes(28));
    assert(f.subrange(12, 16) =~= spec_u32_to_le_bytes(img.width));
    assert(f.subrange(16, 20) =~= spec_u32_to_le_bytes(img.height));
    assert(f.subrange(24, 28) =~= spec_u32_to_le_bytes(2));
    assert(f.subrange(28, 44 + n) =~= c1);
    lemma_chunk_fields(f, 28, PXLS@, p);
    assert(f.subrange(44 + n, 60 + n) =~= c2);
    lemma_chunk_fields(f, 44 + n, END@, Seq::<u8>::empty());
}

/// What `info` reports is read from the header: width at byte 12, height at
/// byte 16 (little-endian), colour from byte 20 and compression from byte
/// 22; the payload length is the `PXLS` length field.
pub proof fn lemma_parse_reads_header(d: Seq<u8>)
    requires
        parse_spec(d) is Ok,
    ensures
        ({
            let meta = parse_spec(d)->Ok_0.0;
            &&& meta.width == le_u32(d, 12)
            &&& meta.height == le_u32(d, 16)
            &&& meta.color == (if d[20] == 1 {
                ColorType::GRAY8
            } else if d[20] == 2 {
                ColorType::RGB8
            } else {
                ColorType::RGBA8
            })
            &&& 1 <= d[20] <= 3
            &&& meta.compression == (if d[22] == 0 {
                Compression::RAW
            } else if d[22] == 1 {
                Compression::RLE
            } else {
                Compression::INDEXED
            })
            &&& d[22] <= 2
            &&& meta.pixel_payload_len == le_u64(d, 32)
        }),
{
    crate::container::lemma_valid_layout(d);
}

} // verus!
