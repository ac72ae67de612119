//! The DBPX run-length codec: a sequence of 5-byte records, each a run
//! length of 1 to 255 followed by one RGBA pixel.

use crate::error::{DbpxError, ErrorKind};
use crate::image::{lemma_channels_fit, lemma_has_pixels_count, pixel_count, pixels, Image};
use crate::pixel::{image_rgba, rgba, Rgba};
use vstd::prelude::*;

verus! {

/// Longest run length an RLE record can hold.
pub const MAX_RUN: usize = 255;

/// The length of the run of pixels equal to `px[i]` that starts at `i`,
/// counted from `r` and capped at 255.
pub open spec fn run_len(px: Seq<Rgba>, i: int, r: int) -> int
    decreases 255 - r,
{
    if r < 255 && i + r < px.len() && px[i + r] == px[i] {
        run_len(px, i, r + 1)
    } else {
        r
    }
}

pub proof fn lemma_run_len(px: Seq<Rgba>, i: int, r: int)
    requires
        0 <= i,
        1 <= r <= 255,
        i + r <= px.len(),
        forall|k: int| i <= k < i + r ==> px[k] == px[i],
    ensures
        r <= run_len(px, i, r) <= 255,
        i + run_len(px, i, r) <= px.len(),
        forall|k: int| i <= k < i + run_len(px, i, r) ==> px[k] == px[i],
        run_len(px, i, r) < 255 && i + run_len(px, i, r) < px.len() ==> px[i + run_len(
            px,
            i,
            r,
        )] != px[i],
    decreases 255 - r,
{
    if r < 255 && i + r < px.len() && px[i + r] == px[i] {
        lemma_run_len(px, i, r + 1);
    }
}

/// The bytes of one record.
pub open spec fn record(run: u8, x: Rgba) -> Seq<u8> {
    seq![run, x.r, x.g, x.b, x.a]
}

/// The RLE encoding of the pixels from `i` on: each record holds the longest
/// run (of at most 255) of equal pixels that starts where the last one ended.
pub open spec fn rle_encode_from(px: Seq<Rgba>, i: int) -> Seq<u8>
    decreases px.len() - i,
{
    if i < 0 || i >= px.len() {
        Seq::empty()
    } else {
        let run = run_len(px, i, 1);
        proof {
            lemma_run_len(px, i, 1);
        }
        record(run as u8, px[i]) + rle_encode_from(px, i + run)
    }
}

/// The RLE encoding of `px`.
pub open spec fn rle_encode_spec(px: Seq<Rgba>) -> Seq<u8> {
    rle_encode_from(px, 0)
}

/// Expands the records in `q`, appending to `acc`, for an image of `total`
/// pixels.
pub open spec fn rle_expand(q: Seq<u8>, total: nat, acc: Seq<Rgba>) -> Result<Seq<Rgba>, ErrorKind>
    decreases q.len(),
{
    if q.len() < 5 {
        if acc.len() != total {
            Err(ErrorKind::RleCountMismatch)
        } else {
            Ok(acc)
        }
    } else {
        let run = q[0];
        let x = Rgba { r: q[1], g: q[2], b: q[3], a: q[4] };
        if run == 0 {
            Err(ErrorKind::ZeroRun)
        } else if acc.len() + run > total {
            Err(ErrorKind::RunExceedsPixels)
        } else {
            rle_expand(q.skip(5), total, acc + Seq::new(run as nat, |k: int| x))
        }
    }
}

/// The RGBA pixels that an RLE payload `p` gives for an image of `total` pixels.
pub open spec fn rle_decode_spec(p: Seq<u8>, total: nat) -> Result<Seq<Rgba>, ErrorKind> {
    if p.len() % 5 != 0 {
        Err(ErrorKind::BadRleLength)
    } else {
        rle_expand(p, total, Seq::empty())
    }
}

/// RLE-encodes the image's pixels.
pub fn encode_rle(img: &Image) -> (out: Vec<u8>)
    requires
        img@.has_pixels(),
    ensures
        out@ == rle_encode_spec(image_rgba(img@)),
{
    let ghost px = image_rgba(img@);
    let byte_len = img.pixels.len();
    proof {
        lemma_has_pixels_count(img@);
    }
    assert(pixel_count(img.width, img.height) <= byte_len);
    let total = pixels(img.width, img.height) as usize;
    let mut out: Vec<u8> = Vec::new();
    let mut i: usize = 0;
    while i < total
        invariant
            img@.has_pixels(),
            px == image_rgba(img@),
            total == px.len(),
            i <= total,
            out@ + rle_encode_from(px, i as int) == rle_encode_spec(px),
        decreases total - i,
    {
        proof {
            lemma_channels_fit(img@, i as int);
        }
        let x = rgba(img, i);
        let mut run: usize = 1;
        while run < MAX_RUN && i + run < total && rgba_eq(img, i + run, x)
            invariant
                img@.has_pixels(),
                px == image_rgba(img@),
                total == px.len(),
                i < total,
                1 <= run <= 255,
                i + run <= total,
                x == px[i as int],
                run_len(px, i as int, run as int) == run_len(px, i as int, 1),
            decreases 255 - run,
        {
            run = run + 1;
        }
        proof {
            lemma_run_len(px, i as int, 1);
        }
        let ghost before = out@;
        out.push(run as u8);
        out.push(x.r);
        out.push(x.g);
        out.push(x.b);
        out.push(x.a);
        assert(out@ =~= before + record(run as u8, x));
        i = i + run;
    }
    assert(out@ =~= rle_encode_spec(px));
    out
}

/// Whether pixel `j` of `img` equals `x`.
fn rgba_eq(img: &Image, j: usize, x: Rgba) -> (b: bool)
    requires
        img@.has_pixels(),
        j < pixel_count(img.width, img.height),
    ensures
        b == (image_rgba(img@)[j as int] == x),
{
    proof {
        lemma_channels_fit(img@, j as int);
    }
    rgba(img, j) == x
}

/// Expands an RLE payload into the RGBA pixels of an image of `total` pixels.
pub fn decode_rle_rgba(payload: &[u8], total: usize) -> (r: Result<Vec<Rgba>, DbpxError>)
    ensures
        match r {
            Ok(v) => rle_decode_spec(payload@, total as nat) == Ok::<Seq<Rgba>, ErrorKind>(v@),
            Err(e) => rle_decode_spec(payload@, total as nat) == Err::<Seq<Rgba>, ErrorKind>(
                e.kind,
            ),
        },
{
    if payload.len() % 5 != 0 {
        return Err(DbpxError::of(ErrorKind::BadRleLength));
    }
    let mut out: Vec<Rgba> = Vec::new();
    let mut i: usize = 0;
    assert(payload@.skip(0) =~= payload@);
    while i < payload.len()
        invariant
            payload@.len() % 5 == 0,
            i % 5 == 0,
            i <= payload@.len(),
            out@.len() <= total,
            rle_decode_spec(payload@, total as nat) == rle_expand(
                payload@.skip(i as int),
                total as nat,
                out@,
            ),
        decreases payload.len() - i,
    {
        let ghost q = payload@.skip(i as int);
        let run = payload[i] as usize;
        if run == 0 {
            return Err(DbpxError::of(ErrorKind::ZeroRun));
        }
        let x = Rgba { r: payload[i + 1], g: payload[i + 2], b: payload[i + 3], a: payload[i + 4] };
        if run > total - out.len() {
            return Err(DbpxError::of(ErrorKind::RunExceedsPixels));
        }
        let ghost before = out@;
        let mut k: usize = 0;
        while k < run
            invariant
                k <= run,
                out@ == before + Seq::new(k as nat, |j: int| x),
            decreases run - k,
        {
            out.push(x);
            assert(out@ =~= before + Seq::new((k + 1) as nat, |j: int| x));
            k = k + 1;
        }
        assert(q.skip(5) =~= payload@.skip(i + 5));
        i = i + 5;
    }
    assert(payload@.skip(i as int).len() == 0);
    if out.len() != total {
        return Err(DbpxError::of(ErrorKind::RleCountMismatch));
    }
    Ok(out)
}

/// A successful expansion holds exactly `total` pixels.
pub proof fn lemma_rle_expand_len(q: Seq<u8>, total: nat, acc: Seq<Rgba>)
    ensures
        rle_expand(q, total, acc) matches Ok(px) ==> px.len() == total,
    decreases q.len(),
{
    if q.len() >= 5 {
        let run = q[0];
        let x = Rgba { r: q[1], g: q[2], b: q[3], a: q[4] };
        lemma_rle_expand_len(q.skip(5), total, acc + Seq::new(run as nat, |k: int| x));
    }
}

pub proof fn lemma_rle_encode_len(px: Seq<Rgba>, i: int)
    ensures
        rle_encode_from(px, i).len() % 5 == 0,
        0 <= i <= px.len() ==> rle_encode_from(px, i).len() <= 5 * (px.len() - i),
    decreases px.len() - i,
{
    if 0 <= i < px.len() {
        lemma_run_len(px, i, 1);
        lemma_rle_encode_len(px, i + run_len(px, i, 1));
    }
}

/// Expanding the encoding of the pixels from `i` on, after the first `i`
/// pixels, gives back all of them.
pub proof fn lemma_rle_expand_encode(px: Seq<Rgba>, i: int)
    requires
        0 <= i <= px.len(),
    ensures
        rle_expand(rle_encode_from(px, i), px.len(), px.take(i)) == Ok::<Seq<Rgba>, ErrorKind>(
            px,
        ),
    decreases px.len() - i,
{
    if i == px.len() {
        assert(px.take(i) =~= px);
    } else {
        let run = run_len(px, i, 1);
        lemma_run_len(px, i, 1);
        let e = rle_encode_from(px, i);
        let rest = rle_encode_from(px, i + run);
        assert(e == record(run as u8, px[i]) + rest);
        assert(e.skip(5) =~= rest);
        let x = Rgba { r: e[1], g: e[2], b: e[3], a: e[4] };
        assert(x == px[i]);
        assert(px.take(i) + Seq::new(run as nat, |k: int| x) =~= px.take(i + run));
        lemma_rle_expand_encode(px, i + run);
    }
}

/// RLE decoding undoes RLE encoding.
pub proof fn lemma_rle_roundtrip(px: Seq<Rgba>)
    ensures
        rle_decode_spec(rle_encode_spec(px), px.len()) == Ok::<Seq<Rgba>, ErrorKind>(px),
{
    lemma_rle_encode_len(px, 0);
    assert(px.take(0) =~= Seq::<Rgba>::empty());
    lemma_rle_expand_encode(px, 0);
}

/// Expansion keeps what was already expanded as a prefix.
pub proof fn lemma_rle_expand_prefix(q: Seq<u8>, total: nat, acc: Seq<Rgba>)
    ensures
        rle_expand(q, total, acc) matches Ok(px) ==> acc.len() <= px.len() && px.take(
            acc.len() as int,
        ) == acc,
    decreases q.len(),
{
    if q.len() >= 5 {
        let run = q[0];
        let x = Rgba { r: q[1], g: q[2], b: q[3], a: q[4] };
        let acc2 = acc + Seq::new(run as nat, |k: int| x);
        lemma_rle_expand_prefix(q.skip(5), total, acc2);
        if let Ok(px) = rle_expand(q, total, acc) {
            assert(px.take(acc.len() as int) =~= px.take(acc2.len() as int).take(acc.len() as int));
            assert(acc2.take(acc.len() as int) =~= acc);
        }
    } else if let Ok(px) = rle_expand(q, total, acc) {
        assert(px.take(acc.len() as int) =~= acc);
    }
}

/// The first record of an RLE payload decodes to its run length, at least
/// one, of copies of the pixel whose red, green, blue and alpha bytes follow
/// the run length, in that order.
pub proof fn lemma_rle_first_record_decodes(p: Seq<u8>, total: nat)
    requires
        p.len() >= 5,
        rle_decode_spec(p, total) is Ok,
    ensures
        ({
            let px = rle_decode_spec(p, total)->Ok_0;
            &&& 1 <= p[0] <= px.len()
            &&& forall|j: int| 0 <= j < p[0] ==> px[j] == Rgba { r: p[1], g: p[2], b: p[3], a: p[4] }
        }),
{
    let x = Rgba { r: p[1], g: p[2], b: p[3], a: p[4] };
    let acc2 = Seq::<Rgba>::empty() + Seq::new(p[0] as nat, |k: int| x);
    lemma_rle_expand_prefix(p.skip(5), total, acc2);
    let px = rle_decode_spec(p, total)->Ok_0;
    assert forall|j: int| 0 <= j < p[0] implies px[j] == x by {
        assert(px.take(acc2.len() as int)[j] == acc2[j]);
    }
}

/// One record of run length `n` (1 to 255) followed by the bytes `r, g, b,
/// a` decodes, for an image of `n` pixels, to `n` copies of that pixel.
pub proof fn lemma_rle_one_record(n: u8, r: u8, g: u8, b: u8, a: u8)
    requires
        n >= 1,
    ensures
        rle_decode_spec(seq![n, r, g, b, a], n as nat) == Ok::<Seq<Rgba>, ErrorKind>(
            Seq::new(n as nat, |k: int| Rgba { r, g, b, a }),
        ),
{
    let p = seq![n, r, g, b, a];
    let x = Rgba { r: p[1], g: p[2], b: p[3], a: p[4] };
    assert(x == Rgba { r, g, b, a });
    assert(p.skip(5) =~= Seq::<u8>::empty());
    let acc2 = Seq::<Rgba>::empty() + Seq::new(p[0] as nat, |k: int| x);
    assert(acc2 =~= Seq::new(n as nat, |k: int| Rgba { r, g, b, a }));
    assert(rle_expand(p.skip(5), n as nat, acc2) == Ok::<Seq<Rgba>, ErrorKind>(acc2));
    assert(rle_expand(p, n as nat, Seq::empty()) == rle_expand(p.skip(5), n as nat, acc2));
}

proof fn lemma_run_len_shift(px: Seq<Rgba>, i: int, j: int, r: int)
    requires
        0 <= i <= px.len(),
        0 <= j,
        0 <= r,
    ensures
        run_len(px, i + j, r) == run_len(px.skip(i), j, r),
    decreases 255 - r,
{
    if r < 255 && i + j + r < px.len() && px[i + j + r] == px[i + j] {
        lemma_run_len_shift(px, i, j, r + 1);
    }
}

proof fn lemma_encode_shift(px: Seq<Rgba>, i: int, j: int)
    requires
        0 <= i <= px.len(),
        0 <= j,
    ensures
        rle_encode_from(px, i + j) == rle_encode_from(px.skip(i), j),
    decreases px.len() - (i + j),
{
    if i + j < px.len() {
        lemma_run_len_shift(px, i, j, 1);
        lemma_run_len(px, i + j, 1);
        lemma_encode_shift(px, i, j + run_len(px, i + j, 1));
    }
}

/// The RLE encoding of a non-empty pixel sequence starts with a record of
/// the longest run (at most 255) of pixels equal to the first, as its length
/// then that pixel's red, green, blue and alpha bytes; the rest encodes the
/// pixels after the run.
pub proof fn lemma_rle_first_record(px: Seq<Rgba>)
    requires
        px.len() > 0,
    ensures
        ({
            let e = rle_encode_spec(px);
            let n = e[0] as int;
            &&& e.len() >= 5
            &&& 1 <= n <= px.len()
            &&& e[1] == px[0].r && e[2] == px[0].g && e[3] == px[0].b && e[4] == px[0].a
            &&& forall|j: int| 0 <= j < n ==> #[trigger] px[j] == px[0]
            &&& n < 255 && n < px.len() ==> px[n] != px[0]
            &&& e.skip(5) == rle_encode_spec(px.skip(n))
        }),
{
    lemma_run_len(px, 0, 1);
    let n = run_len(px, 0, 1);
    let e = rle_encode_spec(px);
    assert(e == record(n as u8, px[0]) + rle_encode_from(px, n));
    assert(e.skip(5) =~= rle_encode_from(px, n));
    lemma_encode_shift(px, n, 0);
}

} // verus!
