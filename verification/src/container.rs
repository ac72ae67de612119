//! The DBPX container: a fixed 28-byte header, a `PXLS` chunk holding the
//! pixel payload, and a closing `END!` chunk, each chunk protected by a CRC-32.

use crate::bytes::{append_bytes, arr4, le_u16, le_u32, le_u64, u16le, u32le, u64le};
use crate::crc::{crc_chunk, spec_crc_chunk};
use crate::error::{DbpxError, ErrorKind};
use crate::image::{check_dims, check_shape, dims_error, dims_ok, shape_error, Image, ImageView, Info};
use crate::payload::{decode_indexed, decode_rle, encode_payload, payload_spec, pixels_spec, raw};
use crate::types::{ColorType, Compression, CHUNK_HEAD, END, HEADER_LEN, MAGIC, PXLS};
use vstd::bytes::*;
use vstd::prelude::*;

verus! {

/// The bytes of a chunk of type `t` holding `body`.
pub open spec fn chunk_spec(t: Seq<u8>, body: Seq<u8>) -> Seq<u8> {
    t + spec_u64_to_le_bytes(body.len() as u64) + spec_u32_to_le_bytes(spec_crc_chunk(t, body))
        + body
}

/// The header that the encoder writes: version 0.1, two chunks.
pub open spec fn header_spec(w: u32, h: u32, c: ColorType, comp: Compression) -> Seq<u8> {
    MAGIC@ + seq![0u8, 1u8] + spec_u16_to_le_bytes(28) + spec_u32_to_le_bytes(w)
        + spec_u32_to_le_bytes(h) + seq![c.spec_id(), 8u8, comp.spec_id(), 0u8]
        + spec_u32_to_le_bytes(2)
}

/// The file that encoding `img` with compression mode `comp` gives, or why
/// it cannot be encoded.
pub open spec fn encode_spec(img: ImageView, comp: Compression) -> Result<Seq<u8>, ErrorKind> {
    match shape_error(img.width, img.height, img.color, img.pixels.len() as usize) {
        Some(e) => Err(e),
        None => match payload_spec(img, comp) {
            Err(e) => Err(e),
            Ok(p) => Ok(
                header_spec(img.width, img.height, img.color, comp) + chunk_spec(PXLS@, p)
                    + chunk_spec(END@, Seq::empty()),
            ),
        },
    }
}

/// The four bytes at `at` as an array.
pub open spec fn arr4_at(d: Seq<u8>, at: int) -> [u8; 4] {
    [d[at], d[at + 1], d[at + 2], d[at + 3]]
}

/// The first header rule that `d` breaks, if any.
pub open spec fn header_error(d: Seq<u8>) -> Option<ErrorKind> {
    if d.len() < 28 {
        Some(ErrorKind::TruncatedHeader)
    } else if d.subrange(0, 8) != MAGIC@ {
        Some(ErrorKind::BadMagic)
    } else if d[8] != 0 {
        Some(ErrorKind::UnsupportedVersion(d[8], d[9]))
    } else if le_u16(d, 10) != 28 {
        Some(ErrorKind::BadHeaderSize(le_u16(d, 10)))
    } else if ColorType::spec_from_id(d[20]) is None {
        Some(ErrorKind::BadColorType(d[20]))
    } else if d[21] != 8 {
        Some(ErrorKind::BadBitDepth(d[21]))
    } else if Compression::spec_from_id(d[22]) is None {
        Some(ErrorKind::BadCompression(d[22]))
    } else if d[23] != 0 {
        Some(ErrorKind::ReservedFlags(d[23]))
    } else {
        dims_error(le_u32(d, 12), le_u32(d, 16))
    }
}

/// Walks the chunks of `d` from offset `off`, having seen `seen` chunks and
/// the pixel payload at `px` (a byte range) if already met. It stops after
/// an `END!` chunk or at the end of the data, and gives the offset reached,
/// the chunk count, the payload range and whether `END!` was met.
pub open spec fn walk(d: Seq<u8>, off: int, seen: u32, px: Option<(usize, usize)>) -> Result<
    (int, u32, Option<(usize, usize)>, bool),
    ErrorKind,
>
    decreases d.len() - off,
{
    if off < 0 || off >= d.len() {
        Ok((off, seen, px, false))
    } else if off + 16 > d.len() {
        Err(ErrorKind::TruncatedChunkHeader)
    } else {
        let t = d.subrange(off, off + 4);
        let len = le_u64(d, off + 4);
        let want = le_u32(d, off + 12);
        let start = off + 16;
        if len > usize::MAX {
            Err(ErrorKind::ChunkLengthOverflowsUsize)
        } else if start + len > usize::MAX {
            Err(ErrorKind::ChunkLengthOverflow)
        } else if start + len > d.len() {
            Err(ErrorKind::TruncatedChunkData)
        } else {
            let end = start + len;
            let got = spec_crc_chunk(t, d.subrange(start, end));
            if got != want {
                Err(ErrorKind::CrcMismatch { typ: arr4_at(d, off), expected: want, got })
            } else if seen == u32::MAX {
                Err(ErrorKind::ChunkCountOverflow)
            } else if t == PXLS@ {
                if px is Some {
                    Err(ErrorKind::DuplicatePixels)
                } else {
                    walk(d, end, (seen + 1) as u32, Some((start as usize, end as usize)))
                }
            } else if t == END@ {
                Ok((end, (seen + 1) as u32, px, true))
            } else {
                Err(ErrorKind::UnknownChunk(arr4_at(d, off)))
            }
        }
    }
}

/// What the header of `d` says and where its pixel payload is, or the first
/// rule that `d` breaks.
pub open spec fn parse_spec(d: Seq<u8>) -> Result<(Info, Seq<u8>), ErrorKind> {
    match header_error(d) {
        Some(e) => Err(e),
        None => {
            let expected = le_u32(d, 24);
            match walk(d, 28, 0, None) {
                Err(e) => Err(e),
                Ok((off, seen, px, ended)) => if !ended {
                    Err(ErrorKind::MissingEnd)
                } else {
                    match px {
                        None => Err(ErrorKind::MissingPixels),
                        Some((s, e)) => if seen != expected {
                            Err(ErrorKind::ChunkCountMismatch { expected, got: seen })
                        } else if off != d.len() {
                            Err(ErrorKind::TrailingData((d.len() - off) as usize))
                        } else {
                            Ok(
                                (
                                    Info {
                                        width: le_u32(d, 12),
                                        height: le_u32(d, 16),
                                        color: ColorType::spec_from_id(d[20])->Some_0,
                                        compression: Compression::spec_from_id(d[22])->Some_0,
                                        pixel_payload_len: (e - s) as u64,
                                    },
                                    d.subrange(s as int, e as int),
                                ),
                            )
                        },
                    }
                },
            }
        },
    }
}

/// The image that decoding `d` gives, or why `d` is rejected.
pub open spec fn decode_spec(d: Seq<u8>) -> Result<ImageView, ErrorKind> {
    match parse_spec(d) {
        Err(e) => Err(e),
        Ok((meta, p)) => match pixels_spec(meta, p) {
            Err(e) => Err(e),
            Ok(px) => match shape_error(meta.width, meta.height, meta.color, px.len() as usize) {
                Some(e) => Err(e),
                None => Ok(
                    ImageView { width: meta.width, height: meta.height, color: meta.color, pixels: px },
                ),
            },
        },
    }
}

/// Whether the four bytes `a` and `b` are equal.
fn same4(a: &[u8; 4], b: &[u8; 4]) -> (r: bool)
    ensures
        r == (a@ == b@),
{
    let r = a[0] == b[0] && a[1] == b[1] && a[2] == b[2] && a[3] == b[3];
    proof {
        if r {
            assert(a@ =~= b@);
        }
    }
    r
}

/// Appends a chunk of type `typ` holding `body`.
pub fn chunk(out: &mut Vec<u8>, typ: &[u8; 4], body: &[u8])
    ensures
        final(out)@ == old(out)@ + chunk_spec(typ@, body@),
{
    append_bytes(out, typ.as_slice());
    let len = u64_to_le_bytes(body.len() as u64);
    append_bytes(out, len.as_slice());
    let crc = u32_to_le_bytes(crc_chunk(typ, body));
    append_bytes(out, crc.as_slice());
    append_bytes(out, body);
    assert(final(out)@ =~= old(out)@ + chunk_spec(typ@, body@));
}

/// Encodes `img` as a DBPX file with compression mode `comp`.
pub fn encode(img: &Image, comp: Compression) -> (r: Result<Vec<u8>, DbpxError>)
    ensures
        match r {
            Ok(out) => encode_spec(img@, comp) == Ok::<Seq<u8>, ErrorKind>(out@),
            Err(e) => encode_spec(img@, comp) == Err::<Seq<u8>, ErrorKind>(e.kind),
        },
{
    check_shape(img.width, img.height, img.color, img.pixels.len())?;
    proof {
        crate::image::lemma_shape_error_none(img@);
    }
    let payload = encode_payload(img, comp)?;
    let mut out: Vec<u8> = Vec::new();
    append_bytes(&mut out, MAGIC.as_slice());
    out.push(0);
    out.push(1);
    append_bytes(&mut out, u16_to_le_bytes(HEADER_LEN as u16).as_slice());
    append_bytes(&mut out, u32_to_le_bytes(img.width).as_slice());
    append_bytes(&mut out, u32_to_le_bytes(img.height).as_slice());
    out.push(img.color.id());
    out.push(8);
    out.push(comp.id());
    out.push(0);
    append_bytes(&mut out, u32_to_le_bytes(2).as_slice());
    assert(out@ =~= header_spec(img.width, img.height, img.color, comp));
    chunk(&mut out, &PXLS, payload.as_slice());
    let empty: Vec<u8> = Vec::new();
    chunk(&mut out, &END, empty.as_slice());
    assert(empty@ =~= Seq::<u8>::empty());
    Ok(out)
}

/// Whether `data` starts with the DBPX magic.
fn has_magic(data: &[u8]) -> (r: bool)
    requires
        data@.len() >= 8,
    ensures
        r == (data@.subrange(0, 8) == MAGIC@),
{
    let mut i: usize = 0;
    while i < 8
        invariant
            i <= 8,
            data@.len() >= 8,
            data@.subrange(0, i as int) == MAGIC@.subrange(0, i as int),
        decreases 8 - i,
    {
        if data[i] != MAGIC[i] {
            assert(data@.subrange(0, 8)[i as int] != MAGIC@[i as int]);
            return false;
        }
        assert(data@.subrange(0, i + 1) =~= MAGIC@.subrange(0, i + 1));
        i = i + 1;
    }
    assert(MAGIC@.subrange(0, 8) =~= MAGIC@);
    true
}

/// Reads the header and walks the chunks of `data`, giving what the header
/// says and the pixel payload.
pub fn parse(data: &[u8]) -> (r: Result<(Info, &[u8]), DbpxError>)
    ensures
        match r {
            Ok((meta, p)) => parse_spec(data@) == Ok::<(Info, Seq<u8>), ErrorKind>((meta, p@)),
            Err(e) => parse_spec(data@) == Err::<(Info, Seq<u8>), ErrorKind>(e.kind),
        },
{
    if data.len() < HEADER_LEN {
        return Err(DbpxError::of(ErrorKind::TruncatedHeader));
    }
    if !has_magic(data) {
        return Err(DbpxError::of(ErrorKind::BadMagic));
    }
    if data[8] != 0 {
        return Err(DbpxError::of(ErrorKind::UnsupportedVersion(data[8], data[9])));
    }
    let header_size = u16le(data, 10)?;
    if header_size as usize != HEADER_LEN {
        return Err(DbpxError::of(ErrorKind::BadHeaderSize(header_size)));
    }
    let width = u32le(data, 12)?;
    let height = u32le(data, 16)?;
    let color = ColorType::from_id(data[20])?;
    if data[21] != 8 {
        return Err(DbpxError::of(ErrorKind::BadBitDepth(data[21])));
    }
    let compression = Compression::from_id(data[22])?;
    if data[23] != 0 {
        return Err(DbpxError::of(ErrorKind::ReservedFlags(data[23])));
    }
    check_dims(width, height)?;
    let expected_chunks = u32le(data, 24)?;
    let ghost d = data@;
    let mut off: usize = HEADER_LEN;
    let mut seen: u32 = 0;
    let mut payload: Option<(usize, usize)> = None;
    let mut ended = false;
    while !ended && off < data.len()
        invariant
            d == data@,
            header_error(d) is None,
            off <= data@.len(),
            walk(d, 28, 0, None) == (if ended {
                Ok::<(int, u32, Option<(usize, usize)>, bool), ErrorKind>(
                    (off as int, seen, payload, true),
                )
            } else {
                walk(d, off as int, seen, payload)
            }),
            payload matches Some((s, e)) ==> s <= e <= data@.len(),
        decreases data.len() - off,
    {
        if data.len() - off < CHUNK_HEAD {
            return Err(DbpxError::of(ErrorKind::TruncatedChunkHeader));
        }
        let typ = arr4(data, off)?;
        let len64 = u64le(data, off + 4)?;
        let want = u32le(data, off + 12)?;
        let start = off + 16;
        if len64 > usize::MAX as u64 {
            return Err(DbpxError::of(ErrorKind::ChunkLengthOverflowsUsize));
        }
        let len = len64 as usize;
        if start > usize::MAX - len {
            return Err(DbpxError::of(ErrorKind::ChunkLengthOverflow));
        }
        let end = start + len;
        if end > data.len() {
            return Err(DbpxError::of(ErrorKind::TruncatedChunkData));
        }
        let body = &data[start..end];
        let got = crc_chunk(&typ, body);
        assert(typ@ == d.subrange(off as int, off + 4));
        assert(typ == arr4_at(d, off as int)) by {
            assert(typ@ =~= arr4_at(d, off as int)@);
        }
        if got != want {
            return Err(DbpxError::of(ErrorKind::CrcMismatch { typ, expected: want, got }));
        }
        if seen == u32::MAX {
            return Err(DbpxError::of(ErrorKind::ChunkCountOverflow));
        }
        seen = seen + 1;
        if same4(&typ, &PXLS) {
            if payload.is_some() {
                return Err(DbpxError::of(ErrorKind::DuplicatePixels));
            }
            payload = Some((start, end));
            off = end;
        } else if same4(&typ, &END) {
            ended = true;
            off = end;
        } else {
            return Err(DbpxError::of(ErrorKind::UnknownChunk(typ)));
        }
    }
    if !ended {
        return Err(DbpxError::of(ErrorKind::MissingEnd));
    }
    let (s, e) = match payload {
        None => {
            return Err(DbpxError::of(ErrorKind::MissingPixels));
        },
        Some(range) => range,
    };
    if seen != expected_chunks {
        return Err(
            DbpxError::of(ErrorKind::ChunkCountMismatch { expected: expected_chunks, got: seen }),
        );
    }
    if off != data.len() {
        return Err(DbpxError::of(ErrorKind::TrailingData(data.len() - off)));
    }
    let meta = Info { width, height, color, compression, pixel_payload_len: (e - s) as u64 };
    Ok((meta, &data[s..e]))
}

/// The smallest of the raw, run-length and (where it succeeds) indexed
/// encodings of `img`, preferring raw, then run-length, on ties.
pub open spec fn encode_auto_spec(img: ImageView) -> Result<Seq<u8>, ErrorKind> {
    match encode_spec(img, Compression::RAW) {
        Err(e) => Err(e),
        Ok(raw) => match encode_spec(img, Compression::RLE) {
            Err(e) => Err(e),
            Ok(rle) => {
                let best = if rle.len() < raw.len() {
                    rle
                } else {
                    raw
                };
                match encode_spec(img, Compression::INDEXED) {
                    Ok(ix) => if ix.len() < best.len() {
                        Ok(ix)
                    } else {
                        Ok(best)
                    },
                    Err(_) => Ok(best),
                }
            },
        },
    }
}

/// Encodes `img` with whichever compression mode gives the smallest file.
pub fn encode_auto(img: &Image) -> (r: Result<Vec<u8>, DbpxError>)
    ensures
        match r {
            Ok(out) => encode_auto_spec(img@) == Ok::<Seq<u8>, ErrorKind>(out@),
            Err(e) => encode_auto_spec(img@) == Err::<Seq<u8>, ErrorKind>(e.kind),
        },
{
    let mut best = encode(img, Compression::RAW)?;
    let rle = encode(img, Compression::RLE)?;
    if rle.len() < best.len() {
        best = rle;
    }
    match encode(img, Compression::INDEXED) {
        Ok(indexed) => {
            if indexed.len() < best.len() {
                best = indexed;
            }
        },
        Err(_) => {},
    }
    Ok(best)
}

/// Decodes a DBPX file.
pub fn decode(data: &[u8]) -> (r: Result<Image, DbpxError>)
    ensures
        match r {
            Ok(img) => decode_spec(data@) == Ok::<ImageView, ErrorKind>(img@),
            Err(e) => decode_spec(data@) == Err::<ImageView, ErrorKind>(e.kind),
        },
{
    let (meta, payload) = parse(data)?;
    assert(dims_ok(meta.width, meta.height));
    let pixels = match meta.compression {
        Compression::RAW => raw(&meta, payload)?,
        Compression::RLE => decode_rle(&meta, payload)?,
        Compression::INDEXED => decode_indexed(&meta, payload)?,
    };
    Image::new(meta.width, meta.height, meta.color, pixels)
}

/// What the header of a DBPX file says, once the whole file has been checked.
pub fn info(data: &[u8]) -> (r: Result<Info, DbpxError>)
    ensures
        match r {
            Ok(meta) => parse_spec(data@) matches Ok((m, _)) && m == meta,
            Err(e) => parse_spec(data@) == Err::<(Info, Seq<u8>), ErrorKind>(e.kind),
        },
{
    let (meta, _) = parse(data)?;
    Ok(meta)
}

/// The header of one chunk: its type, payload length and stored CRC.
#[derive(Debug, Clone, Copy, PartialEq, Eq)]
pub struct ChunkEntry {
    pub typ: [u8; 4],
    pub len: u64,
    pub crc: u32,
}

/// The chunk header stored at `off`.
pub open spec fn entry_at(d: Seq<u8>, off: int) -> ChunkEntry {
    ChunkEntry { typ: arr4_at(d, off), len: le_u64(d, off + 4), crc: le_u32(d, off + 12) }
}

/// A file that passes every rule holds exactly two chunks: `PXLS` right
/// after the header, then `END!`, which ends the file.
pub proof fn lemma_valid_layout(d: Seq<u8>)
    requires
        parse_spec(d) is Ok,
    ensures
        ({
            let n = le_u64(d, 32);
            &&& 44 + n + 16 <= d.len()
            &&& d.subrange(28, 32) == PXLS@
            &&& d.subrange(44 + n, 48 + n) == END@
            &&& 60 + n + le_u64(d, 48 + n) == d.len()
            &&& le_u32(d, 24) == 2
            &&& parse_spec(d)->Ok_0.1 == d.subrange(44, 44 + n)
            &&& parse_spec(d)->Ok_0.0.pixel_payload_len == n
        }),
{
    let w = walk(d, 28, 0, None);
    assert(d.len() > 28) by {
        if d.len() <= 28 {
            assert(w == Ok::<(int, u32, Option<(usize, usize)>, bool), ErrorKind>((28, 0, None, false)));
        }
    }
    let t = d.subrange(28, 32);
    assert(t == PXLS@) by {
        if t != PXLS@ {
            if t == END@ {
                assert(w matches Ok((_, _, px, _)) && px is None);
            }
        }
    }
    let n = le_u64(d, 32);
    let mid = 44 + n;
    let w2 = walk(d, mid, 1, Some((44usize, mid as usize)));
    assert(w == w2);
    assert(mid < d.len()) by {
        if mid >= d.len() {
            assert(w2 matches Ok((_, _, _, ended)) && !ended);
        }
    }
    let t2 = d.subrange(mid, mid + 4);
    assert(t2 == END@) by {
        if t2 != END@ {
            if t2 == PXLS@ {
                assert(w2 is Err);
            }
        }
    }
}

/// The two chunk headers of a file that passes every rule.
pub fn chunks(data: &[u8]) -> (r: Result<Vec<ChunkEntry>, DbpxError>)
    ensures
        match r {
            Ok(v) => parse_spec(data@) is Ok && v@ == seq![
                entry_at(data@, 28),
                entry_at(data@, 44 + le_u64(data@, 32)),
            ],
            Err(e) => parse_spec(data@) == Err::<(Info, Seq<u8>), ErrorKind>(e.kind),
        },
{
    let (meta, payload) = parse(data)?;
    proof {
        lemma_valid_layout(data@);
    }
    let mut v: Vec<ChunkEntry> = Vec::new();
    let first = ChunkEntry { typ: PXLS, len: meta.pixel_payload_len, crc: u32_at(data, 40) };
    assert(PXLS@ == arr4_at(data@, 28)@);
    assert(first.typ == arr4_at(data@, 28)) by {
        assert(PXLS@ =~= arr4_at(data@, 28)@);
    }
    let total = data.len();
    let mid = 44 + payload.len();
    assert(mid + 16 <= total);
    let second = ChunkEntry { typ: END, len: u64_at(data, mid + 4), crc: u32_at(data, mid + 12) };
    assert(second.typ == arr4_at(data@, mid as int)) by {
        assert(END@ =~= arr4_at(data@, mid as int)@);
    }
    v.push(first);
    v.push(second);
    assert(v@ =~= seq![entry_at(data@, 28), entry_at(data@, 44 + le_u64(data@, 32))]);
    Ok(v)
}

fn u32_at(data: &[u8], at: usize) -> (v: u32)
    requires
        at + 4 <= data@.len(),
    ensures
        v == le_u32(data@, at as int),
{
    let end = data.len() - (data.len() - at - 4);
    vstd::bytes::u32_from_le_bytes(&data[at..end])
}

fn u64_at(data: &[u8], at: usize) -> (v: u64)
    requires
        at + 8 <= data@.len(),
    ensures
        v == le_u64(data@, at as int),
{
    let end = data.len() - (data.len() - at - 8);
    vstd::bytes::u64_from_le_bytes(&data[at..end])
}

} // verus!
