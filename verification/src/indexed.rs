//! The DBPX indexed codec: one byte holding the palette size minus one,
//! the palette's RGBA colours in order of first use, then one palette index
//! per pixel.

use crate::bytes::append_bytes;
use crate::error::{DbpxError, ErrorKind};
use crate::image::{lemma_channels_fit, lemma_has_pixels_count, pixel_count, pixels, Image};
use crate::pixel::{image_rgba, pack, pack_spec, px_bytes, rgba, lemma_pack_len, Rgba};
use crate::types::ColorType;
use vstd::prelude::*;

verus! {

/// Largest palette an indexed payload can hold.
pub const MAX_INDEXED_COLORS: usize = 256;

/// The first position at or after `j` where `pal` holds `x`, or -1.
pub open spec fn find_from(pal: Seq<Rgba>, x: Rgba, j: int) -> int
    decreases pal.len() - j,
{
    if j < 0 || j >= pal.len() {
        -1
    } else if pal[j] == x {
        j
    } else {
        find_from(pal, x, j + 1)
    }
}

/// Builds the palette (colours in order of first use) and the index of each
/// pixel from `i` on, continuing from `pal` and `ind`.
pub open spec fn palette_from(px: Seq<Rgba>, i: int, pal: Seq<Rgba>, ind: Seq<u8>) -> Result<
    (Seq<Rgba>, Seq<u8>),
    ErrorKind,
>
    decreases px.len() - i,
{
    if i < 0 || i >= px.len() {
        Ok((pal, ind))
    } else {
        let k = find_from(pal, px[i], 0);
        if k >= 0 {
            palette_from(px, i + 1, pal, ind.push(k as u8))
        } else if pal.len() == 256 {
            Err(ErrorKind::TooManyColors)
        } else {
            palette_from(px, i + 1, pal.push(px[i]), ind.push(pal.len() as u8))
        }
    }
}

/// The indexed encoding of the pixels `px`.
pub open spec fn indexed_encode_spec(px: Seq<Rgba>) -> Result<Seq<u8>, ErrorKind> {
    match palette_from(px, 0, Seq::empty(), Seq::empty()) {
        Err(e) => Err(e),
        Ok((pal, ind)) => if pal.len() == 0 {
            Err(ErrorKind::NoColors)
        } else {
            Ok(seq![(pal.len() - 1) as u8] + pack_spec(ColorType::RGBA8, pal) + ind)
        },
    }
}

/// Palette entry `k` of the palette bytes `pb`.
pub open spec fn palette_entry(pb: Seq<u8>, k: int) -> Rgba {
    Rgba { r: pb[4 * k], g: pb[4 * k + 1], b: pb[4 * k + 2], a: pb[4 * k + 3] }
}

/// Looks up each index of `q` in a palette of `colors` entries, appending
/// to `acc`.
pub open spec fn index_expand(pb: Seq<u8>, colors: nat, q: Seq<u8>, acc: Seq<Rgba>) -> Result<
    Seq<Rgba>,
    ErrorKind,
>
    decreases q.len(),
{
    if q.len() == 0 {
        Ok(acc)
    } else if q[0] >= colors {
        Err(ErrorKind::MissingPaletteEntry(q[0]))
    } else {
        index_expand(pb, colors, q.drop_first(), acc.push(palette_entry(pb, q[0] as int)))
    }
}

/// The RGBA pixels that an indexed payload `p` gives for an image of
/// `total` pixels.
pub open spec fn indexed_decode_spec(p: Seq<u8>, total: nat) -> Result<Seq<Rgba>, ErrorKind> {
    if p.len() == 0 {
        Err(ErrorKind::TruncatedIndexed)
    } else {
        let colors = p[0] + 1;
        let start = 1 + 4 * colors;
        if p.len() < start {
            Err(ErrorKind::TruncatedPalette)
        } else if p.len() - start != total {
            Err(
                ErrorKind::BadIndexedCount {
                    expected: total as usize,
                    got: (p.len() - start) as usize,
                },
            )
        } else {
            index_expand(p.subrange(1, start), colors as nat, p.skip(start), Seq::empty())
        }
    }
}

/// A successful lookup gives one pixel per index.
pub proof fn lemma_index_expand_len(pb: Seq<u8>, colors: nat, q: Seq<u8>, acc: Seq<Rgba>)
    ensures
        index_expand(pb, colors, q, acc) matches Ok(px) ==> px.len() == acc.len() + q.len(),
    decreases q.len(),
{
    if q.len() > 0 && q[0] < colors {
        lemma_index_expand_len(pb, colors, q.drop_first(), acc.push(palette_entry(pb, q[0] as int)));
    }
}

pub proof fn lemma_find_from(pal: Seq<Rgba>, x: Rgba, j: int)
    requires
        0 <= j,
    ensures
        find_from(pal, x, j) >= 0 ==> j <= find_from(pal, x, j) < pal.len() && pal[find_from(
            pal,
            x,
            j,
        )] == x,
        find_from(pal, x, j) < 0 ==> find_from(pal, x, j) == -1 && forall|k: int|
            j <= k < pal.len() ==> pal[k] != x,
    decreases pal.len() - j,
{
    if j < pal.len() && pal[j] != x {
        lemma_find_from(pal, x, j + 1);
    }
}

/// The position of `x` in `pal`, if it is there.
fn find(pal: &Vec<Rgba>, x: Rgba) -> (r: Option<usize>)
    ensures
        match r {
            Some(k) => find_from(pal@, x, 0) == k,
            None => find_from(pal@, x, 0) == -1,
        },
{
    let mut j: usize = 0;
    while j < pal.len()
        invariant
            j <= pal@.len(),
            find_from(pal@, x, 0) == find_from(pal@, x, j as int),
        decreases pal.len() - j,
    {
        if pal[j] == x {
            return Some(j);
        }
        j = j + 1;
    }
    None
}

/// Encodes the image's pixels as a palette and indices.
pub fn encode_indexed(img: &Image) -> (r: Result<Vec<u8>, DbpxError>)
    requires
        img@.has_pixels(),
    ensures
        match r {
            Ok(out) => indexed_encode_spec(image_rgba(img@)) == Ok::<Seq<u8>, ErrorKind>(out@),
            Err(e) => indexed_encode_spec(image_rgba(img@)) == Err::<Seq<u8>, ErrorKind>(e.kind),
        },
{
    let ghost px = image_rgba(img@);
    let byte_len = img.pixels.len();
    proof {
        lemma_has_pixels_count(img@);
    }
    assert(pixel_count(img.width, img.height) <= byte_len);
    let total = pixels(img.width, img.height) as usize;
    let mut palette: Vec<Rgba> = Vec::new();
    let mut indices: Vec<u8> = Vec::new();
    let mut i: usize = 0;
    while i < total
        invariant
            img@.has_pixels(),
            px == image_rgba(img@),
            total == px.len(),
            i <= total,
            palette@.len() <= 256,
            palette_from(px, 0, Seq::empty(), Seq::empty()) == palette_from(
                px,
                i as int,
                palette@,
                indices@,
            ),
        decreases total - i,
    {
        proof {
            lemma_channels_fit(img@, i as int);
        }
        let x = rgba(img, i);
        match find(&palette, x) {
            Some(k) => {
                proof {
                    lemma_find_from(palette@, x, 0);
                }
                indices.push(k as u8);
            },
            None => {
                if palette.len() == MAX_INDEXED_COLORS {
                    return Err(DbpxError::of(ErrorKind::TooManyColors));
                }
                let n = palette.len();
                palette.push(x);
                indices.push(n as u8);
            },
        }
        i = i + 1;
    }
    if palette.len() == 0 {
        return Err(DbpxError::of(ErrorKind::NoColors));
    }
    let mut out: Vec<u8> = Vec::new();
    out.push((palette.len() - 1) as u8);
    let pb = pack(palette.as_slice(), ColorType::RGBA8);
    append_bytes(&mut out, pb.as_slice());
    append_bytes(&mut out, indices.as_slice());
    assert(out@ =~= seq![(palette@.len() - 1) as u8] + pack_spec(ColorType::RGBA8, palette@)
        + indices@);
    Ok(out)
}

/// Expands an indexed payload into the RGBA pixels of an image of `total`
/// pixels.
pub fn decode_indexed_rgba(payload: &[u8], total: usize) -> (r: Result<Vec<Rgba>, DbpxError>)
    ensures
        match r {
            Ok(v) => indexed_decode_spec(payload@, total as nat) == Ok::<Seq<Rgba>, ErrorKind>(
                v@,
            ),
            Err(e) => indexed_decode_spec(payload@, total as nat) == Err::<Seq<Rgba>, ErrorKind>(
                e.kind,
            ),
        },
{
    if payload.len() == 0 {
        return Err(DbpxError::of(ErrorKind::TruncatedIndexed));
    }
    let colors = payload[0] as usize + 1;
    let start = 1 + colors * 4;
    if payload.len() < start {
        return Err(DbpxError::of(ErrorKind::TruncatedPalette));
    }
    let index_bytes = payload.len() - start;
    if index_bytes != total {
        return Err(DbpxError::of(ErrorKind::BadIndexedCount { expected: total, got: index_bytes }));
    }
    let palette = &payload[1..start];
    let indices = &payload[start..payload.len()];
    assert(indices@ =~= payload@.skip(start as int));
    let mut out: Vec<Rgba> = Vec::new();
    let mut k: usize = 0;
    assert(indices@.skip(0) =~= indices@);
    while k < indices.len()
        invariant
            palette@ == payload@.subrange(1, start as int),
            palette@.len() == 4 * colors,
            k <= indices@.len(),
            indexed_decode_spec(payload@, total as nat) == index_expand(
                palette@,
                colors as nat,
                indices@.skip(k as int),
                out@,
            ),
        decreases indices.len() - k,
    {
        let index = indices[k] as usize;
        if index >= colors {
            return Err(DbpxError::of(ErrorKind::MissingPaletteEntry(indices[k])));
        }
        let at = index * 4;
        let x = Rgba { r: palette[at], g: palette[at + 1], b: palette[at + 2], a: palette[at + 3] };
        out.push(x);
        assert(indices@.skip(k as int).drop_first() =~= indices@.skip(k + 1));
        k = k + 1;
    }
    Ok(out)
}

/// Every pixel before `i` has an index whose palette entry is that pixel.
pub open spec fn indexes_pixels(px: Seq<Rgba>, i: int, pal: Seq<Rgba>, ind: Seq<u8>) -> bool {
    &&& 0 <= i <= px.len()
    &&& ind.len() == i
    &&& pal.len() <= 256
    &&& forall|j: int| 0 <= j < i ==> (#[trigger] ind[j]) < pal.len() && pal[ind[j] as int] == px[j]
}

pub proof fn lemma_palette_from(px: Seq<Rgba>, i: int, pal: Seq<Rgba>, ind: Seq<u8>)
    requires
        indexes_pixels(px, i, pal, ind),
        i > 0 ==> pal.len() > 0,
    ensures
        palette_from(px, i, pal, ind) matches Ok((pal2, ind2)) ==> indexes_pixels(
            px,
            px.len() as int,
            pal2,
            ind2,
        ) && (px.len() > 0 ==> pal2.len() > 0),
    decreases px.len() - i,
{
    if i < px.len() {
        let k = find_from(pal, px[i], 0);
        lemma_find_from(pal, px[i], 0);
        if k >= 0 {
            let ind2 = ind.push(k as u8);
            assert(indexes_pixels(px, i + 1, pal, ind2)) by {
                assert forall|j: int| 0 <= j < i + 1 implies (#[trigger] ind2[j]) < pal.len()
                    && pal[ind2[j] as int] == px[j] by {
                    if j < i {
                        assert(ind2[j] == ind[j]);
                    }
                }
            }
            lemma_palette_from(px, i + 1, pal, ind2);
        } else if pal.len() < 256 {
            let pal2 = pal.push(px[i]);
            let ind2 = ind.push(pal.len() as u8);
            assert(indexes_pixels(px, i + 1, pal2, ind2)) by {
                assert forall|j: int| 0 <= j < i + 1 implies (#[trigger] ind2[j]) < pal2.len()
                    && pal2[ind2[j] as int] == px[j] by {
                    if j < i {
                        assert(ind2[j] == ind[j]);
                        assert(pal2[ind[j] as int] == pal[ind[j] as int]);
                    }
                }
            }
            lemma_palette_from(px, i + 1, pal2, ind2);
        }
    }
}

/// Entry `k` of the packed palette is colour `k` of the palette.
pub proof fn lemma_palette_entry(pal: Seq<Rgba>, k: int)
    requires
        0 <= k < pal.len(),
    ensures
        palette_entry(pack_spec(ColorType::RGBA8, pal), k) == pal[k],
    decreases pal.len(),
{
    let pb = pack_spec(ColorType::RGBA8, pal);
    let front = pal.drop_last();
    lemma_pack_len(ColorType::RGBA8, front);
    assert(pb == pack_spec(ColorType::RGBA8, front) + px_bytes(ColorType::RGBA8, pal.last()));
    if k < pal.len() - 1 {
        lemma_palette_entry(front, k);
        assert(front[k] == pal[k]);
    }
}

pub proof fn lemma_index_expand(px: Seq<Rgba>, pal: Seq<Rgba>, ind: Seq<u8>, j: int)
    requires
        indexes_pixels(px, px.len() as int, pal, ind),
        0 <= j <= px.len(),
    ensures
        index_expand(
            pack_spec(ColorType::RGBA8, pal),
            pal.len(),
            ind.skip(j),
            px.take(j),
        ) == Ok::<Seq<Rgba>, ErrorKind>(px),
    decreases px.len() - j,
{
    let pb = pack_spec(ColorType::RGBA8, pal);
    if j == px.len() {
        assert(px.take(j) =~= px);
    } else {
        let q = ind.skip(j);
        assert(q[0] == ind[j]);
        lemma_palette_entry(pal, ind[j] as int);
        assert(q.drop_first() =~= ind.skip(j + 1));
        assert(px.take(j).push(px[j]) =~= px.take(j + 1));
        lemma_index_expand(px, pal, ind, j + 1);
    }
}

/// Indexed decoding undoes a successful indexed encoding.
pub proof fn lemma_indexed_roundtrip(px: Seq<Rgba>)
    requires
        indexed_encode_spec(px) is Ok,
    ensures
        indexed_decode_spec(indexed_encode_spec(px)->Ok_0, px.len()) == Ok::<
            Seq<Rgba>,
            ErrorKind,
        >(px),
{
    lemma_palette_from(px, 0, Seq::empty(), Seq::empty());
    let (pal, ind) = palette_from(px, 0, Seq::empty(), Seq::empty())->Ok_0;
    let pb = pack_spec(ColorType::RGBA8, pal);
    lemma_pack_len(ColorType::RGBA8, pal);
    let p = seq![(pal.len() - 1) as u8] + pb + ind;
    assert(p == indexed_encode_spec(px)->Ok_0);
    let start = 1 + 4 * pal.len();
    assert(ColorType::RGBA8.spec_channels() == 4);
    assert(pb.len() == pal.len() * 4);
    assert(p[0] + 1 == pal.len());
    assert(p.subrange(1, start as int) =~= pb);
    assert(p.skip(start as int) =~= ind);
    assert(ind.skip(0) =~= ind);
    assert(px.take(0) =~= Seq::<Rgba>::empty());
    lemma_index_expand(px, pal, ind, 0);
}

pub proof fn lemma_palette_from_len(px: Seq<Rgba>, i: int, pal: Seq<Rgba>, ind: Seq<u8>)
    requires
        0 <= i <= px.len(),
        ind.len() == i,
        pal.len() <= 256,
    ensures
        palette_from(px, i, pal, ind) matches Ok((pal2, ind2)) ==> pal2.len() <= 256
            && ind2.len() == px.len(),
    decreases px.len() - i,
{
    if i < px.len() {
        let k = find_from(pal, px[i], 0);
        if k >= 0 {
            lemma_palette_from_len(px, i + 1, pal, ind.push(k as u8));
        } else if pal.len() < 256 {
            lemma_palette_from_len(px, i + 1, pal.push(px[i]), ind.push(pal.len() as u8));
        }
    }
}

/// An indexed payload is at most a byte, 256 palette entries and one byte
/// per pixel.
pub proof fn lemma_indexed_len(px: Seq<Rgba>)
    ensures
        indexed_encode_spec(px) matches Ok(p) ==> p.len() <= 1 + 1024 + px.len(),
{
    lemma_palette_from_len(px, 0, Seq::empty(), Seq::empty());
    if let Ok((pal, ind)) = palette_from(px, 0, Seq::empty(), Seq::empty()) {
        lemma_pack_len(ColorType::RGBA8, pal);
        assert(ColorType::RGBA8.spec_channels() == 4);
    }
}

/// The palette built so far holds each colour of the first `i` pixels
/// exactly once.
pub open spec fn palette_inv(px: Seq<Rgba>, i: int, pal: Seq<Rgba>) -> bool {
    &&& 0 <= i <= px.len()
    &&& pal.no_duplicates()
    &&& pal.to_set() == px.take(i).to_set()
    &&& pal.len() <= 256
}

proof fn lemma_palette_colors(px: Seq<Rgba>, i: int, pal: Seq<Rgba>, ind: Seq<u8>)
    requires
        palette_inv(px, i, pal),
    ensures
        palette_from(px, i, pal, ind) is Ok <==> px.to_set().len() <= 256,
        palette_from(px, i, pal, ind) matches Ok((pal2, _)) ==> pal2.to_set() == px.to_set(),
    decreases px.len() - i,
{
    broadcast use vstd::seq_lib::seq_to_set_is_finite;
    broadcast use vstd::set::group_set_axioms;

    if i == px.len() {
        assert(px.take(i) =~= px);
        pal.unique_seq_to_set();
    } else {
        let x = px[i];
        let k = find_from(pal, x, 0);
        lemma_find_from(pal, x, 0);
        assert(px.take(i + 1) =~= px.take(i).push(x));
        px.take(i).lemma_push_to_set_commute(x);
        if k >= 0 {
            assert(pal.to_set().contains(x));
            assert(px.take(i + 1).to_set() =~= px.take(i).to_set());
            lemma_palette_colors(px, i + 1, pal, ind.push(k as u8));
        } else {
            assert(!pal.contains(x));
            pal.lemma_push_to_set_commute(x);
            if pal.len() == 256 {
                pal.unique_seq_to_set();
                assert(!pal.to_set().contains(x));
                let seen = px.take(i + 1).to_set();
                assert(seen.len() == 257);
                assert(seen.subset_of(px.to_set())) by {
                    assert forall|y: Rgba| seen.contains(y) implies px.to_set().contains(y) by {
                        let j = choose|j: int| 0 <= j < i + 1 && #[trigger] px.take(i + 1)[j] == y;
                        assert(px[j] == y);
                    }
                }
                vstd::set_lib::lemma_len_subset(seen, px.to_set());
            } else {
                let pal2 = pal.push(x);
                assert(pal2.no_duplicates()) by {
                    assert forall|a: int, b: int| 0 <= a < b < pal2.len() implies pal2[a]
                        != pal2[b] by {
                        if b == pal.len() {
                            assert(pal2[a] == pal[a]);
                        }
                    }
                }
                lemma_palette_colors(px, i + 1, pal2, ind.push(pal.len() as u8));
            }
        }
    }
}

/// Indexed encoding accepts exactly the pixel sequences with at least one
/// and at most 256 distinct colours.
pub proof fn lemma_indexed_accepts(px: Seq<Rgba>)
    ensures
        indexed_encode_spec(px) is Ok <==> px.len() > 0 && px.to_set().len() <= 256,
{
    broadcast use vstd::set::group_set_axioms;

    assert(px.take(0) =~= Seq::<Rgba>::empty());
    assert(Seq::<Rgba>::empty().to_set() =~= Set::<Rgba>::empty());
    lemma_palette_colors(px, 0, Seq::empty(), Seq::empty());
    if let Ok((pal, _)) = palette_from(px, 0, Seq::empty(), Seq::empty()) {
        if px.len() > 0 {
            assert(px.to_set().contains(px[0]));
            assert(pal.to_set().contains(px[0]));
            assert(pal.len() > 0);
        } else {
            assert(px.to_set() =~= Set::<Rgba>::empty());
            if pal.len() > 0 {
                assert(pal.to_set().contains(pal[0]));
            }
        }
    }
}

proof fn lemma_index_expand_entries(pb: Seq<u8>, colors: nat, q: Seq<u8>, acc: Seq<Rgba>)
    requires
        index_expand(pb, colors, q, acc) is Ok,
    ensures
        ({
            let px = index_expand(pb, colors, q, acc)->Ok_0;
            &&& px.len() == acc.len() + q.len()
            &&& forall|j: int| 0 <= j < acc.len() ==> #[trigger] px[j] == acc[j]
            &&& forall|j: int|
                0 <= j < q.len() ==> #[trigger] q[j] < colors && px[acc.len() + j] == palette_entry(
                    pb,
                    q[j] as int,
                )
        }),
    decreases q.len(),
{
    if q.len() > 0 {
        let acc2 = acc.push(palette_entry(pb, q[0] as int));
        lemma_index_expand_entries(pb, colors, q.drop_first(), acc2);
        let px = index_expand(pb, colors, q, acc)->Ok_0;
        assert forall|j: int| 0 <= j < q.len() implies #[trigger] q[j] < colors && px[acc.len() + j]
            == palette_entry(pb, q[j] as int) by {
            if j > 0 {
                assert(q.drop_first()[j - 1] == q[j]);
            } else {
                assert(px[acc.len() as int] == acc2[acc.len() as int]);
            }
        }
    }
}

proof fn lemma_indexed_decode_pixel(p: Seq<u8>, total: nat, i: int)
    requires
        indexed_decode_spec(p, total) is Ok,
        0 <= i < total,
    ensures
        p.len() == 1 + 4 * (p[0] + 1) + total,
        indexed_decode_spec(p, total)->Ok_0.len() == total,
        p[1 + 4 * (p[0] + 1) + i] < p[0] + 1,
        indexed_decode_spec(p, total)->Ok_0[i] == (Rgba {
            r: p[1 + 4 * p[1 + 4 * (p[0] + 1) + i]],
            g: p[2 + 4 * p[1 + 4 * (p[0] + 1) + i]],
            b: p[3 + 4 * p[1 + 4 * (p[0] + 1) + i]],
            a: p[4 + 4 * p[1 + 4 * (p[0] + 1) + i]],
        }),
{
    let k = p[0] + 1;
    let start = 1 + 4 * k;
    let pb = p.subrange(1, start);
    let q = p.skip(start);
    lemma_index_expand_entries(pb, k as nat, q, Seq::empty());
    let px = indexed_decode_spec(p, total)->Ok_0;
    assert(p.len() >= start && p.len() - start == total);
    assert(px == index_expand(pb, k as nat, q, Seq::empty())->Ok_0);
    assert(q[i] == p[start + i]);
    let x = q[i] as int;
    assert(q[i] < k && px[0 + i] == palette_entry(pb, x));
    assert(pb[4 * x] == p[1 + 4 * x]);
    assert(pb[4 * x + 1] == p[2 + 4 * x]);
    assert(pb[4 * x + 2] == p[3 + 4 * x]);
    assert(pb[4 * x + 3] == p[4 + 4 * x]);
}

/// Decoding an indexed payload `p`: `p[0] + 1` palette colours of four bytes
/// each (red, green, blue, alpha) follow the first byte, then one index per
/// pixel; pixel `i` is the palette colour its index names, and every index
/// names a colour.
pub proof fn lemma_indexed_decode_pixels(p: Seq<u8>, total: nat)
    requires
        indexed_decode_spec(p, total) is Ok,
    ensures
        p.len() == 1 + 4 * (p[0] + 1) + total,
        indexed_decode_spec(p, total)->Ok_0.len() == total,
        forall|i: int|
            #![trigger p[1 + 4 * (p[0] + 1) + i]]
            0 <= i < total ==> p[1 + 4 * (p[0] + 1) + i] < p[0] + 1 && indexed_decode_spec(
                p,
                total,
            )->Ok_0[i] == (Rgba {
                r: p[1 + 4 * p[1 + 4 * (p[0] + 1) + i]],
                g: p[2 + 4 * p[1 + 4 * (p[0] + 1) + i]],
                b: p[3 + 4 * p[1 + 4 * (p[0] + 1) + i]],
                a: p[4 + 4 * p[1 + 4 * (p[0] + 1) + i]],
            }),
{
    lemma_index_expand_entries(p.subrange(1, 1 + 4 * (p[0] + 1)), (p[0] + 1) as nat, p.skip(1 + 4 * (p[0] + 1)), Seq::empty());
    assert forall|i: int|
        #![trigger p[1 + 4 * (p[0] + 1) + i]]
        0 <= i && i < total implies (p[1 + 4 * (p[0] + 1) + i] < p[0] + 1 && indexed_decode_spec(
            p,
            total,
        )->Ok_0[i] == (Rgba {
        r: p[1 + 4 * p[1 + 4 * (p[0] + 1) + i]],
        g: p[2 + 4 * p[1 + 4 * (p[0] + 1) + i]],
        b: p[3 + 4 * p[1 + 4 * (p[0] + 1) + i]],
        a: p[4 + 4 * p[1 + 4 * (p[0] + 1) + i]],
    })) by {
        lemma_indexed_decode_pixel(p, total, i);
    }
    if total > 0 {
        lemma_indexed_decode_pixel(p, total, 0);
    }
}

/// An indexed payload holds the palette size minus one, the palette's
/// colours as red, green, blue, alpha bytes, then one index per pixel; the
/// colour each index names is that pixel.
pub proof fn lemma_indexed_layout(px: Seq<Rgba>)
    requires
        indexed_encode_spec(px) is Ok,
    ensures
        ({
            let e = indexed_encode_spec(px)->Ok_0;
            let k = e[0] + 1;
            &&& e.len() == 1 + 4 * k + px.len()
            &&& forall|i: int|
                0 <= i < px.len() ==> e[1 + 4 * k + i] < k && e[1 + 4 * e[1 + 4 * k + i]] == (
                #[trigger] px[i]).r && e[2 + 4 * e[1 + 4 * k + i]] == px[i].g && e[3 + 4 * e[1 + 4
                * k + i]] == px[i].b && e[4 + 4 * e[1 + 4 * k + i]] == px[i].a
        }),
{
    lemma_palette_from(px, 0, Seq::empty(), Seq::empty());
    let (pal, ind) = palette_from(px, 0, Seq::empty(), Seq::empty())->Ok_0;
    let pb = pack_spec(ColorType::RGBA8, pal);
    lemma_pack_len(ColorType::RGBA8, pal);
    assert(ColorType::RGBA8.spec_channels() == 4);
    let e = indexed_encode_spec(px)->Ok_0;
    assert(e == seq![(pal.len() - 1) as u8] + pb + ind);
    let k = e[0] + 1;
    assert(k == pal.len());
    assert forall|i: int| 0 <= i < px.len() implies e[1 + 4 * k + i] < k && e[1 + 4 * e[1 + 4 * k
        + i]] == (#[trigger] px[i]).r && e[2 + 4 * e[1 + 4 * k + i]] == px[i].g && e[3 + 4 * e[1
        + 4 * k + i]] == px[i].b && e[4 + 4 * e[1 + 4 * k + i]] == px[i].a by {
        assert(e[1 + 4 * k + i] == ind[i]);
        let x = ind[i] as int;
        assert(ind[i] < pal.len() && pal[x] == px[i]);
        crate::pixel::lemma_pack_bytes(ColorType::RGBA8, pal, x);
        assert(e[1 + 4 * x] == pb[4 * x]);
        assert(e[2 + 4 * x] == pb[4 * x + 1]);
        assert(e[3 + 4 * x] == pb[4 * x + 2]);
        assert(e[4 + 4 * x] == pb[4 * x + 3]);
    }
}

} // verus!
