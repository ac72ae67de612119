//! Binary (P6) PPM input, and the demo image of the command-line tool.

use crate::error::{decimal, error_text, push_decimal, DbpxError, ErrorKind};
use crate::image::{shape_error, Image, ImageView};
use crate::types::{ColorType, MAX_PIXELS};
use vstd::prelude::*;

verus! {

/// The three numeric header fields of a PPM file.
#[derive(Debug, Clone, Copy, PartialEq, Eq, Structural)]
pub enum PpmField {
    Width,
    Height,
    MaxValue,
}

/// Why PPM input or a demo image was refused.
#[derive(Debug, Clone)]
pub enum PpmError {
    MissingMagic,
    NotBinary,
    MissingField(PpmField),
    InvalidField(PpmField, Vec<u8>),
    BadMaxValue,
    MissingWhitespace,
    SizeOverflow,
    LengthMismatch { expected: usize, got: usize },
    DemoZero,
    DemoLimit(u64),
    Image(DbpxError),
}

/// The value of a [`PpmError`].
pub enum PpmFailure {
    MissingMagic,
    NotBinary,
    MissingField(PpmField),
    InvalidField(PpmField, Seq<u8>),
    BadMaxValue,
    MissingWhitespace,
    SizeOverflow,
    LengthMismatch { expected: usize, got: usize },
    DemoZero,
    DemoLimit(u64),
    Image(ErrorKind),
}

impl View for PpmError {
    type V = PpmFailure;

    open spec fn view(&self) -> PpmFailure {
        match self {
            PpmError::MissingMagic => PpmFailure::MissingMagic,
            PpmError::NotBinary => PpmFailure::NotBinary,
            PpmError::MissingField(f) => PpmFailure::MissingField(*f),
            PpmError::InvalidField(f, t) => PpmFailure::InvalidField(*f, t@),
            PpmError::BadMaxValue => PpmFailure::BadMaxValue,
            PpmError::MissingWhitespace => PpmFailure::MissingWhitespace,
            PpmError::SizeOverflow => PpmFailure::SizeOverflow,
            PpmError::LengthMismatch { expected, got } => PpmFailure::LengthMismatch {
                expected: *expected,
                got: *got,
            },
            PpmError::DemoZero => PpmFailure::DemoZero,
            PpmError::DemoLimit(n) => PpmFailure::DemoLimit(*n),
            PpmError::Image(e) => PpmFailure::Image(e.kind),
        }
    }
}

/// Whitespace as PPM headers use it: space, tab, line feed, form feed,
/// carriage return.
pub open spec fn is_ws(b: u8) -> bool {
    b == 0x20 || b == 0x09 || b == 0x0A || b == 0x0C || b == 0x0D
}

/// The position of the first line feed at or after `i`, or the end.
pub open spec fn line_end(d: Seq<u8>, i: int) -> int
    decreases d.len() - i,
{
    if i < 0 || i >= d.len() {
        if i < 0 { 0 } else { i }
    } else if d[i] == 0x0A {
        i
    } else {
        line_end(d, i + 1)
    }
}

pub proof fn lemma_line_end(d: Seq<u8>, i: int)
    requires
        0 <= i,
    ensures
        i <= line_end(d, i),
        i <= d.len() ==> line_end(d, i) <= d.len(),
        line_end(d, i) < d.len() ==> d[line_end(d, i)] == 0x0A,
    decreases d.len() - i,
{
    if i < d.len() && d[i] != 0x0A {
        lemma_line_end(d, i + 1);
    }
}

/// The position after the whitespace and `#` comments that start at `i`.
pub open spec fn skip_blank(d: Seq<u8>, i: int) -> int
    decreases d.len() - i,
{
    if i < 0 || i >= d.len() {
        i
    } else if is_ws(d[i]) {
        skip_blank(d, i + 1)
    } else if d[i] == 0x23 {
        let e = line_end(d, i + 1);
        proof {
            lemma_line_end(d, i + 1);
        }
        skip_blank(d, e)
    } else {
        i
    }
}

/// The end of the token that starts at `i`.
pub open spec fn token_end(d: Seq<u8>, i: int) -> int
    decreases d.len() - i,
{
    if 0 <= i < d.len() && !is_ws(d[i]) {
        token_end(d, i + 1)
    } else {
        i
    }
}

pub proof fn lemma_skip_blank(d: Seq<u8>, i: int)
    requires
        0 <= i <= d.len(),
    ensures
        i <= skip_blank(d, i) <= d.len(),
    decreases d.len() - i,
{
    if i < d.len() {
        if is_ws(d[i]) {
            lemma_skip_blank(d, i + 1);
        } else if d[i] == 0x23 {
            lemma_line_end(d, i + 1);
            lemma_skip_blank(d, line_end(d, i + 1));
        }
    }
}

/// The next token at or after `i` (none at the end of the data) and the
/// position after it.
pub open spec fn token_spec(d: Seq<u8>, i: int) -> (Option<Seq<u8>>, int) {
    let s = skip_blank(d, i);
    if s >= d.len() {
        (None, s)
    } else {
        let e = token_end(d, s);
        (Some(d.subrange(s, e)), e)
    }
}

pub open spec fn is_digit(b: u8) -> bool {
    0x30 <= b <= 0x39
}

/// The value of a string of decimal digits.
pub open spec fn digits_value(s: Seq<u8>) -> nat
    decreases s.len(),
{
    if s.len() == 0 {
        0
    } else {
        digits_value(s.drop_last()) * 10 + (s.last() - 0x30) as nat
    }
}

/// The digits of a number as written: an optional leading `+`.
pub open spec fn unsigned_digits(s: Seq<u8>) -> Seq<u8> {
    if s.len() > 0 && s[0] == 0x2B {
        s.skip(1)
    } else {
        s
    }
}

/// The `u32` that `s` spells in decimal, if any (std's `u32` parsing: an
/// optional `+`, then one or more digits, no larger than `u32::MAX`).
pub open spec fn parse_u32_spec(s: Seq<u8>) -> Option<u32> {
    let ds = unsigned_digits(s);
    if ds.len() > 0 && (forall|i: int| 0 <= i < ds.len() ==> is_digit(#[trigger] ds[i]))
        && digits_value(ds) <= u32::MAX {
        Some(digits_value(ds) as u32)
    } else {
        None
    }
}

fn is_ws_byte(b: u8) -> (r: bool)
    ensures
        r == is_ws(b),
{
    b == 0x20 || b == 0x09 || b == 0x0A || b == 0x0C || b == 0x0D
}

/// Reads the next token at or after `*pos`, skipping whitespace and `#`
/// comments, and moves `*pos` past it.
pub fn token(data: &[u8], pos: &mut usize) -> (r: Option<Vec<u8>>)
    ensures
        ({
            let (t, e) = token_spec(data@, *old(pos) as int);
            &&& *final(pos) == e
            &&& *old(pos) <= data@.len() ==> *old(pos) <= *final(pos) <= data@.len()
            &&& match r {
                Some(v) => t == Some(v@),
                None => t is None,
            }
        }),
{
    if *pos >= data.len() {
        return None;
    }
    let ghost start = *pos as int;
    proof {
        lemma_skip_blank(data@, start);
    }
    loop
        invariant
            start <= *pos <= data@.len(),
            skip_blank(data@, start) == skip_blank(data@, *pos as int),
        ensures
            start <= *pos <= data@.len(),
            skip_blank(data@, start) == *pos,
        decreases data@.len() - *pos,
    {
        let ghost p0 = *pos as int;
        while *pos < data.len() && is_ws_byte(data[*pos])
            invariant
                p0 <= *pos <= data@.len(),
                start <= *pos,
                skip_blank(data@, start) == skip_blank(data@, *pos as int),
            decreases data@.len() - *pos,
        {
            *pos = *pos + 1;
        }
        if *pos < data.len() && data[*pos] == 0x23 {
            let ghost hash = *pos as int;
            *pos = *pos + 1;
            while *pos < data.len() && data[*pos] != 0x0A
                invariant
                    p0 <= hash < *pos <= data@.len(),
                    start <= *pos,
                    skip_blank(data@, start) == skip_blank(data@, hash),
                    data@[hash] == 0x23,
                    line_end(data@, hash + 1) == line_end(data@, *pos as int),
                decreases data@.len() - *pos,
            {
                *pos = *pos + 1;
            }
            assert(line_end(data@, *pos as int) == *pos);
            continue;
        }
        assert(skip_blank(data@, *pos as int) == *pos);
        break;
    }
    if *pos >= data.len() {
        return None;
    }
    let s = *pos;
    while *pos < data.len() && !is_ws_byte(data[*pos])
        invariant
            s <= *pos <= data@.len(),
            token_end(data@, s as int) == token_end(data@, *pos as int),
        decreases data@.len() - *pos,
    {
        *pos = *pos + 1;
    }
    let mut t: Vec<u8> = Vec::new();
    crate::bytes::append_bytes(&mut t, &data[s..*pos]);
    Some(t)
}

pub proof fn lemma_digits_value_prefix(s: Seq<u8>, k: int)
    requires
        0 <= k <= s.len(),
        forall|j: int| 0 <= j < s.len() ==> is_digit(#[trigger] s[j]),
    ensures
        digits_value(s.take(k)) <= digits_value(s),
    decreases s.len() - k,
{
    if k < s.len() {
        lemma_digits_value_prefix(s, k + 1);
        assert(s.take(k + 1).drop_last() =~= s.take(k));
        assert(is_digit(s[k]));
    } else {
        assert(s.take(k) =~= s);
    }
}

/// The `u32` that `s` spells in decimal (an optional `+`, then digits), if any.
pub fn parse_u32(s: &[u8]) -> (r: Option<u32>)
    ensures
        r == parse_u32_spec(s@),
{
    let ghost ds = unsigned_digits(s@);
    let start: usize = if s.len() > 0 && s[0] == 0x2B {
        1
    } else {
        0
    };
    assert(ds =~= s@.skip(start as int));
    if start >= s.len() {
        return None;
    }
    let mut v: u32 = 0;
    let mut i: usize = start;
    while i < s.len()
        invariant
            start <= i <= s@.len(),
            start < s@.len(),
            ds == s@.skip(start as int),
            ds == unsigned_digits(s@),
            forall|j: int| 0 <= j < i - start ==> is_digit(#[trigger] ds[j]),
            v == digits_value(ds.take(i - start)),
        decreases s.len() - i,
    {
        let b = s[i];
        if b < 0x30 || b > 0x39 {
            proof {
                assert(ds[i - start] == b);
                assert(!is_digit(ds[i - start]));
            }
            return None;
        }
        let d = (b - 0x30) as u32;
        assert(ds.take(i - start + 1).drop_last() =~= ds.take(i - start));
        if v > (u32::MAX - d) / 10 {
            proof {
                let k = i - start;
                assert(ds[k] == b);
                assert(v * 10 + d > u32::MAX) by (nonlinear_arith)
                    requires
                        v > (u32::MAX - d) / 10,
                        d <= 9,
                ;
                assert(digits_value(ds.take(k + 1)) == v * 10 + d);
                if forall|j: int| 0 <= j < ds.len() ==> is_digit(#[trigger] ds[j]) {
                    lemma_digits_value_prefix(ds, k + 1);
                }
            }
            return None;
        }
        v = v * 10 + d;
        i = i + 1;
    }
    assert(ds.take(i - start) =~= ds);
    Some(v)
}

/// The numeric header field at or after `i`, and the position after it.
pub open spec fn field_spec(d: Seq<u8>, i: int, f: PpmField) -> Result<(u32, int), PpmFailure> {
    let (t, e) = token_spec(d, i);
    match t {
        None => Err(PpmFailure::MissingField(f)),
        Some(s) => match parse_u32_spec(s) {
            None => Err(PpmFailure::InvalidField(f, s)),
            Some(v) => Ok((v, e)),
        },
    }
}

/// The image that PPM data `d` holds, or why it is refused: a `P6` magic,
/// width, height and a maximum value of 255, one whitespace byte, then
/// exactly `width * height` RGB pixels.
pub open spec fn parse_ppm_spec(d: Seq<u8>) -> Result<ImageView, PpmFailure> {
    let (t, e0) = token_spec(d, 0);
    match t {
        None => Err(PpmFailure::MissingMagic),
        Some(m) => if m != seq![0x50u8, 0x36u8] {
            Err(PpmFailure::NotBinary)
        } else {
            match field_spec(d, e0, PpmField::Width) {
                Err(x) => Err(x),
                Ok((w, e1)) => match field_spec(d, e1, PpmField::Height) {
                    Err(x) => Err(x),
                    Ok((h, e2)) => match field_spec(d, e2, PpmField::MaxValue) {
                        Err(x) => Err(x),
                        Ok((mx, e3)) => if mx != 255 {
                            Err(PpmFailure::BadMaxValue)
                        } else if e3 >= d.len() || !is_ws(d[e3]) {
                            Err(PpmFailure::MissingWhitespace)
                        } else if w * h > usize::MAX || w * h * 3 > usize::MAX {
                            Err(PpmFailure::SizeOverflow)
                        } else {
                            let pos = e3 + 1;
                            let n = (w * h * 3) as usize;
                            let got = (d.len() - pos) as usize;
                            if got != n {
                                Err(PpmFailure::LengthMismatch { expected: n, got })
                            } else {
                                match shape_error(w, h, ColorType::RGB8, got) {
                                    Some(k) => Err(PpmFailure::Image(k)),
                                    None => Ok(
                                        ImageView {
                                            width: w,
                                            height: h,
                                            color: ColorType::RGB8,
                                            pixels: d.skip(pos),
                                        },
                                    ),
                                }
                            }
                        },
                    },
                },
            }
        },
    }
}

/// Reads the numeric header field at `*pos`.
pub fn parse_u32_token(data: &[u8], pos: &mut usize, f: PpmField) -> (r: Result<u32, PpmError>)
    ensures
        match r {
            Ok(v) => field_spec(data@, *old(pos) as int, f) == Ok::<(u32, int), PpmFailure>(
                (v, *final(pos) as int),
            ),
            Err(e) => field_spec(data@, *old(pos) as int, f) == Err::<(u32, int), PpmFailure>(
                e@,
            ),
        },
        *old(pos) <= data@.len() ==> *final(pos) <= data@.len(),
{
    let raw = match token(data, pos) {
        None => {
            return Err(PpmError::MissingField(f));
        },
        Some(t) => t,
    };
    match parse_u32(raw.as_slice()) {
        None => Err(PpmError::InvalidField(f, raw)),
        Some(v) => Ok(v),
    }
}

/// Reads a binary (P6) PPM file with a maximum value of 255.
pub fn parse_ppm(data: &[u8]) -> (r: Result<Image, PpmError>)
    ensures
        match r {
            Ok(img) => parse_ppm_spec(data@) == Ok::<ImageView, PpmFailure>(img@),
            Err(e) => parse_ppm_spec(data@) == Err::<ImageView, PpmFailure>(e@),
        },
{
    let mut pos: usize = 0;
    let magic = match token(data, &mut pos) {
        None => {
            return Err(PpmError::MissingMagic);
        },
        Some(t) => t,
    };
    if !(magic.len() == 2 && magic[0] == 0x50 && magic[1] == 0x36) {
        proof {
            if magic@.len() == 2 && magic@ == seq![0x50u8, 0x36u8] {
                assert(magic@[0] == 0x50 && magic@[1] == 0x36);
            }
        }
        return Err(PpmError::NotBinary);
    }
    assert(magic@ =~= seq![0x50u8, 0x36u8]);
    let width = parse_u32_token(data, &mut pos, PpmField::Width)?;
    let height = parse_u32_token(data, &mut pos, PpmField::Height)?;
    let max = parse_u32_token(data, &mut pos, PpmField::MaxValue)?;
    if max != 255 {
        return Err(PpmError::BadMaxValue);
    }
    if pos >= data.len() || !is_ws_byte(data[pos]) {
        return Err(PpmError::MissingWhitespace);
    }
    pos = pos + 1;
    let wh = match (width as usize).checked_mul(height as usize) {
        None => {
            return Err(PpmError::SizeOverflow);
        },
        Some(n) => n,
    };
    let expected = match wh.checked_mul(3) {
        None => {
            return Err(PpmError::SizeOverflow);
        },
        Some(n) => n,
    };
    let actual = data.len() - pos;
    if actual != expected {
        return Err(PpmError::LengthMismatch { expected, got: actual });
    }
    let mut px: Vec<u8> = Vec::new();
    crate::bytes::append_bytes(&mut px, &data[pos..data.len()]);
    assert(px@ =~= data@.skip(pos as int));
    match Image::new(width, height, ColorType::RGB8, px) {
        Ok(img) => Ok(img),
        Err(e) => Err(PpmError::Image(e)),
    }
}

/// Largest width or height for which the demo's colour ramps fit in `u32`.
pub const DEMO_MAX_SIDE: u32 = 16_843_010;

/// Demo pixel at column `x`, row `y`: red and green ramps over the width and
/// height, blue alternating in 16 by 16 checks.
pub open spec fn demo_px(w: u32, h: u32, x: nat, y: nat) -> Seq<u8> {
    seq![
        ((x * 255) / (w as nat)) as u8,
        ((y * 255) / (h as nat)) as u8,
        if (x / 16 + y / 16) % 2 == 0 { 32u8 } else { 220u8 },
    ]
}

/// The first `n` demo pixels of row `y`.
pub open spec fn demo_row(w: u32, h: u32, y: nat, n: nat) -> Seq<u8>
    decreases n,
{
    if n == 0 {
        Seq::empty()
    } else {
        demo_row(w, h, y, (n - 1) as nat) + demo_px(w, h, (n - 1) as nat, y)
    }
}

/// The first `m` rows of the demo image.
pub open spec fn demo_rows(w: u32, h: u32, m: nat) -> Seq<u8>
    decreases m,
{
    if m == 0 {
        Seq::empty()
    } else {
        demo_rows(w, h, (m - 1) as nat) + demo_row(w, h, (m - 1) as nat, w as nat)
    }
}

/// The demo image of the given size, or why it cannot be made.
pub open spec fn demo_spec(w: u32, h: u32) -> Result<ImageView, PpmFailure> {
    if w == 0 || h == 0 {
        Err(PpmFailure::DemoZero)
    } else if w * h > MAX_PIXELS {
        Err(PpmFailure::DemoLimit((w * h) as u64))
    } else {
        let p = demo_rows(w, h, h as nat);
        match shape_error(w, h, ColorType::RGB8, p.len() as usize) {
            Some(k) => Err(PpmFailure::Image(k)),
            None => Ok(ImageView { width: w, height: h, color: ColorType::RGB8, pixels: p }),
        }
    }
}

pub proof fn lemma_demo_row_len(w: u32, h: u32, y: nat, n: nat)
    ensures
        demo_row(w, h, y, n).len() == 3 * n,
    decreases n,
{
    if n > 0 {
        lemma_demo_row_len(w, h, y, (n - 1) as nat);
    }
}

pub proof fn lemma_demo_len(w: u32, h: u32, n: nat)
    ensures
        demo_rows(w, h, n).len() == 3 * w * n,
    decreases n,
{
    if n > 0 {
        lemma_demo_len(w, h, (n - 1) as nat);
        lemma_demo_row_len(w, h, (n - 1) as nat, w as nat);
        let m = (n - 1) as nat;
        assert(3 * w * n == 3 * w * m + 3 * w) by (nonlinear_arith)
            requires
                m + 1 == n,
        ;
    } else {
        assert(3 * w * n == 0) by (nonlinear_arith)
            requires
                n == 0,
        ;
    }
}

/// One colour ramp value: `v * 255 / n` for `v < n`.
pub(crate) fn ramp(v: u32, n: u32) -> (r: u8)
    requires
        v < n,
        n <= DEMO_MAX_SIDE,
    ensures
        r == ((v * 255) as nat) / (n as nat),
{
    assert(v * 255 <= u32::MAX) by (nonlinear_arith)
        requires
            v < n,
            n <= DEMO_MAX_SIDE,
    ;
    let q = (v * 255) / n;
    assert(q < 255) by (nonlinear_arith)
        requires
            v < n,
            q == (v * 255) / (n as int),
    ;
    q as u8
}

/// The demo image of the command-line tool: `width` by `height` RGB pixels.
pub fn demo(width: u32, height: u32) -> (r: Result<Image, PpmError>)
    requires
        width == 0 || height == 0 || width * height > MAX_PIXELS || (width <= DEMO_MAX_SIDE
            && height <= DEMO_MAX_SIDE),
    ensures
        match r {
            Ok(img) => demo_spec(width, height) == Ok::<ImageView, PpmFailure>(img@),
            Err(e) => demo_spec(width, height) == Err::<ImageView, PpmFailure>(e@),
        },
{
    if width == 0 || height == 0 {
        return Err(PpmError::DemoZero);
    }
    let total = crate::image::pixels(width, height);
    if total > MAX_PIXELS {
        return Err(PpmError::DemoLimit(total));
    }
    let mut px: Vec<u8> = Vec::with_capacity((total * 3) as usize);
    let mut y: u32 = 0;
    while y < height
        invariant
            0 < width <= DEMO_MAX_SIDE,
            0 < height <= DEMO_MAX_SIDE,
            y <= height,
            px@ == demo_rows(width, height, y as nat),
        decreases height - y,
    {
        let mut x: u32 = 0;
        while x < width
            invariant
                0 < width <= DEMO_MAX_SIDE,
                0 < height <= DEMO_MAX_SIDE,
                y < height,
                x <= width,
                px@ == demo_rows(width, height, y as nat) + demo_row(
                    width,
                    height,
                    y as nat,
                    x as nat,
                ),
            decreases width - x,
        {
            let sum = x / 16 + y / 16;
            let checker = (sum & 1) as u8;
            assert(checker == 0 <==> sum % 2 == 0) by (bit_vector)
                requires
                    checker == (sum & 1) as u8,
            ;
            let r = ramp(x, width);
            let g = ramp(y, height);
            let b: u8 = if checker == 0 {
                32
            } else {
                220
            };
            let ghost before = px@;
            px.push(r);
            px.push(g);
            px.push(b);
            assert(px@ =~= before + demo_px(width, height, x as nat, y as nat));
            x = x + 1;
        }
        y = y + 1;
    }
    match Image::new(width, height, ColorType::RGB8, px) {
        Ok(img) => Ok(img),
        Err(e) => Err(PpmError::Image(e)),
    }
}

/// The text that std's `String::from_utf8_lossy` makes of `b`.
pub uninterp spec fn utf8_lossy(b: Seq<u8>) -> Seq<char>;

/// ASCII bytes as characters.
pub open spec fn ascii_chars(b: Seq<u8>) -> Seq<char> {
    Seq::new(b.len(), |i: int| b[i] as char)
}

/// Text of the bytes `b`, invalid UTF-8 replaced (std's
/// `String::from_utf8_lossy`). Claimed: the result is a function of the
/// bytes, and ASCII bytes come out as the same characters; what replaces
/// invalid sequences is left unsaid.
#[verifier::external_body]
fn lossy_text(b: &[u8]) -> (s: String)
    ensures
        s@ == utf8_lossy(b@),
        (forall|i: int| 0 <= i < b@.len() ==> b@[i] < 0x80) ==> s@ == ascii_chars(b@),
{
    String::from_utf8_lossy(b).into_owned()
}

pub open spec fn ppm_field_name(f: PpmField) -> Seq<char> {
    match f {
        PpmField::Width => "width"@,
        PpmField::Height => "height"@,
        PpmField::MaxValue => "max value"@,
    }
}

/// The message of each kind of PPM or demo failure.
pub open spec fn ppm_text(e: PpmFailure) -> Seq<char> {
    match e {
        PpmFailure::MissingMagic => "missing PPM magic"@,
        PpmFailure::NotBinary => "only binary P6 PPM is supported"@,
        PpmFailure::MissingField(f) => "missing PPM "@ + ppm_field_name(f),
        PpmFailure::InvalidField(f, t) => "invalid PPM "@ + ppm_field_name(f) + ": "@
            + utf8_lossy(t),
        PpmFailure::BadMaxValue => "only PPM max value 255 is supported"@,
        PpmFailure::MissingWhitespace => "missing whitespace before PPM pixels"@,
        PpmFailure::SizeOverflow => "PPM size overflow"@,
        PpmFailure::LengthMismatch { expected, got } => "PPM pixel length mismatch: expected "@
            + decimal(expected as nat) + ", got "@ + decimal(got as nat),
        PpmFailure::DemoZero => "demo dimensions must be non-zero"@,
        PpmFailure::DemoLimit(n) => "demo dimensions exceed pixel limit: "@ + decimal(n as nat),
        PpmFailure::Image(k) => error_text(k),
    }
}

fn ppm_field_str(f: PpmField) -> (r: &'static str)
    ensures
        r@ == ppm_field_name(f),
{
    match f {
        PpmField::Width => "width",
        PpmField::Height => "height",
        PpmField::MaxValue => "max value",
    }
}

impl PpmError {
    /// The failure's message.
    pub fn to_string(&self) -> (s: String)
        ensures
            s@ == ppm_text(self@),
    {
        let mut s = String::new();
        match self {
            PpmError::MissingMagic => s.append("missing PPM magic"),
            PpmError::NotBinary => s.append("only binary P6 PPM is supported"),
            PpmError::MissingField(f) => {
                s.append("missing PPM ");
                s.append(ppm_field_str(*f));
            },
            PpmError::InvalidField(f, t) => {
                s.append("invalid PPM ");
                s.append(ppm_field_str(*f));
                s.append(": ");
                let text = lossy_text(t.as_slice());
                s.append(text.as_str());
            },
            PpmError::BadMaxValue => s.append("only PPM max value 255 is supported"),
            PpmError::MissingWhitespace => s.append("missing whitespace before PPM pixels"),
            PpmError::SizeOverflow => s.append("PPM size overflow"),
            PpmError::LengthMismatch { expected, got } => {
                s.append("PPM pixel length mismatch: expected ");
                push_decimal(&mut s, *expected as u64);
                s.append(", got ");
                push_decimal(&mut s, *got as u64);
            },
            PpmError::DemoZero => s.append("demo dimensions must be non-zero"),
            PpmError::DemoLimit(n) => {
                s.append("demo dimensions exceed pixel limit: ");
                push_decimal(&mut s, *n);
            },
            PpmError::Image(e) => {
                return e.to_string();
            },
        }
        s
    }
}

/// A demo image can be made exactly when its size obeys the dimension rules.
pub proof fn lemma_demo_accepts(w: u32, h: u32)
    ensures
        demo_spec(w, h) is Ok <==> crate::image::dims_ok(w, h),
        demo_spec(w, h) matches Ok(img) ==> img.wf(),
{
    if w != 0 && h != 0 && w * h <= MAX_PIXELS {
        lemma_demo_len(w, h, h as nat);
        crate::image::lemma_pixel_count_bound(w, h);
        assert(3 * w * h == w * h * 3) by (nonlinear_arith);
        if crate::image::dims_ok(w, h) {
            crate::image::lemma_shape_fits(w, h, ColorType::RGB8);
        }
        let p = demo_rows(w, h, h as nat);
        crate::image::lemma_shape_error_none(
            ImageView { width: w, height: h, color: ColorType::RGB8, pixels: p },
        );
    }
}

/// Decimal digits of `n` as ASCII bytes.
pub open spec fn decimal_bytes(n: nat) -> Seq<u8>
    decreases n,
{
    if n < 10 {
        seq![(n + 48) as u8]
    } else {
        decimal_bytes(n / 10).push((n % 10 + 48) as u8)
    }
}

/// The PPM file of an image: a `P6` header with its size and a maximum
/// value of 255, then its RGB bytes.
pub open spec fn ppm_bytes_spec(img: ImageView) -> Seq<u8> {
    seq![0x50u8, 0x36u8, 0x0Au8] + decimal_bytes(img.width as nat) + seq![0x20u8]
        + decimal_bytes(img.height as nat) + seq![0x0Au8, 0x32u8, 0x35u8, 0x35u8, 0x0Au8]
        + crate::pixel::rgb_spec(img.color, img.pixels)
}

fn push_decimal_bytes(out: &mut Vec<u8>, n: u32)
    ensures
        final(out)@ == old(out)@ + decimal_bytes(n as nat),
    decreases n,
{
    if n >= 10 {
        push_decimal_bytes(out, n / 10);
    }
    out.push((n % 10 + 48) as u8);
    assert(final(out)@ =~= old(out)@ + decimal_bytes(n as nat));
}

/// The PPM file of `img`.
pub fn ppm_bytes(img: &Image) -> (out: Vec<u8>)
    requires
        img.width * img.height * 3 <= usize::MAX,
    ensures
        out@ == ppm_bytes_spec(img@),
{
    let mut out: Vec<u8> = Vec::new();
    out.push(0x50);
    out.push(0x36);
    out.push(0x0A);
    push_decimal_bytes(&mut out, img.width);
    out.push(0x20);
    push_decimal_bytes(&mut out, img.height);
    out.push(0x0A);
    out.push(0x32);
    out.push(0x35);
    out.push(0x35);
    out.push(0x0A);
    let rgb = crate::pixel::rgb_bytes(img);
    crate::bytes::append_bytes(&mut out, rgb.as_slice());
    assert(out@ =~= ppm_bytes_spec(img@));
    out
}

pub proof fn lemma_decimal_bytes(n: nat)
    ensures
        decimal_bytes(n).len() >= 1,
        forall|i: int| 0 <= i < decimal_bytes(n).len() ==> is_digit(#[trigger] decimal_bytes(n)[i]),
        digits_value(decimal_bytes(n)) == n,
    decreases n,
{
    let s = decimal_bytes(n);
    if n >= 10 {
        lemma_decimal_bytes(n / 10);
        assert(s.drop_last() =~= decimal_bytes(n / 10));
        assert(s.last() == (n % 10 + 48) as u8);
        assert((n / 10) * 10 + n % 10 == n);
        assert(digits_value(s) == digits_value(s.drop_last()) * 10 + (s.last() - 0x30) as nat);
    } else {
        assert(s.drop_last() =~= Seq::<u8>::empty());
        assert(digits_value(Seq::<u8>::empty()) == 0);
        assert(digits_value(s) == digits_value(s.drop_last()) * 10 + (s.last() - 0x30) as nat);
    }
}

/// Written numbers parse back.
pub proof fn lemma_parse_decimal(n: u32)
    ensures
        parse_u32_spec(decimal_bytes(n as nat)) == Some(n),
{
    lemma_decimal_bytes(n as nat);
    let s = decimal_bytes(n as nat);
    assert(is_digit(s[0]));
    assert(unsigned_digits(s) == s);
}

pub proof fn lemma_token_end_run(d: Seq<u8>, i: int, j: int)
    requires
        0 <= i <= j <= d.len(),
        forall|k: int| i <= k < j ==> !is_ws(#[trigger] d[k]),
        j == d.len() || is_ws(d[j]),
    ensures
        token_end(d, i) == j,
    decreases j - i,
{
    if i < j {
        lemma_token_end_run(d, i + 1, j);
    }
}

/// A token of digits `s` written at `i + 1`, after one whitespace byte at
/// `i` and before whitespace, is read as it is.
proof fn lemma_digit_token(d: Seq<u8>, i: int, s: Seq<u8>)
    requires
        0 <= i,
        i + 1 + s.len() < d.len(),
        s.len() >= 1,
        is_ws(d[i]),
        d.subrange(i + 1, i + 1 + s.len()) == s,
        forall|k: int| 0 <= k < s.len() ==> is_digit(#[trigger] s[k]),
        is_ws(d[i + 1 + s.len()]),
    ensures
        token_spec(d, i) == (Some(s), i + 1 + s.len()),
{
    let j = i + 1 + s.len();
    assert forall|k: int| i + 1 <= k < j implies !is_ws(#[trigger] d[k]) && d[k] != 0x23 by {
        assert(d[k] == d.subrange(i + 1, j)[k - i - 1]);
        assert(is_digit(s[k - i - 1]));
    }
    assert(skip_blank(d, i + 1) == i + 1);
    lemma_token_end_run(d, i + 1, j);
}

/// The numeric field written as the digits of `n` at `i + 1`.
proof fn lemma_number_field(d: Seq<u8>, i: int, n: u32, f: PpmField)
    requires
        0 <= i,
        i + 1 + decimal_bytes(n as nat).len() < d.len(),
        is_ws(d[i]),
        d.subrange(i + 1, i + 1 + decimal_bytes(n as nat).len()) == decimal_bytes(n as nat),
        is_ws(d[i + 1 + decimal_bytes(n as nat).len()]),
    ensures
        field_spec(d, i, f) == Ok::<(u32, int), PpmFailure>(
            (n, i + 1 + decimal_bytes(n as nat).len()),
        ),
{
    lemma_decimal_bytes(n as nat);
    lemma_parse_decimal(n);
    lemma_digit_token(d, i, decimal_bytes(n as nat));
}

/// Writing an image as PPM and reading it back gives its RGB form.
#[verifier::rlimit(60)]
pub proof fn lemma_ppm_roundtrip(img: ImageView)
    requires
        img.wf(),
    ensures
        parse_ppm_spec(ppm_bytes_spec(img)) == Ok::<ImageView, PpmFailure>(
            ImageView {
                width: img.width,
                height: img.height,
                color: ColorType::RGB8,
                pixels: crate::pixel::rgb_spec(img.color, img.pixels),
            },
        ),
{
    let w = img.width;
    let h = img.height;
    let dw = decimal_bytes(w as nat);
    let dh = decimal_bytes(h as nat);
    let d255 = decimal_bytes(255);
    assert(d255 == seq![0x32u8, 0x35u8, 0x35u8]) by {
        reveal_with_fuel(decimal_bytes, 3);
    }
    lemma_decimal_bytes(w as nat);
    lemma_decimal_bytes(h as nat);
    let rgb = crate::pixel::rgb_spec(img.color, img.pixels);
    let d = ppm_bytes_spec(img);
    let lw = dw.len() as int;
    let lh = dh.len() as int;
    let b = 3 + lw;
    let c = b + 1 + lh;
    let pos = c + 5;
    assert(d =~= seq![0x50u8, 0x36u8, 0x0Au8] + dw + seq![0x20u8] + dh + seq![0x0Au8] + d255
        + seq![0x0Au8] + rgb);
    assert(d.len() == pos + rgb.len());
    assert(d.skip(pos) =~= rgb);
    assert(d.subrange(3, b) =~= dw);
    assert(d.subrange(b + 1, c) =~= dh);
    assert(d.subrange(c + 1, c + 4) =~= d255);
    assert(d[2] == 0x0A && d[b] == 0x20 && d[c] == 0x0A && d[c + 4] == 0x0A);
    assert(token_spec(d, 0) == (Some(seq![0x50u8, 0x36u8]), 2int)) by {
        assert(skip_blank(d, 0) == 0);
        lemma_token_end_run(d, 0, 2);
        assert(d.subrange(0, 2) =~= seq![0x50u8, 0x36u8]);
    }
    lemma_number_field(d, 2, w, PpmField::Width);
    lemma_number_field(d, b, h, PpmField::Height);
    lemma_number_field(d, c, 255, PpmField::MaxValue);
    crate::image::lemma_pixel_count_bound(w, h);
    crate::image::lemma_shape_fits(w, h, ColorType::RGB8);
    lemma_rgb_len(img);
}

/// The RGB form of a well-formed image has three bytes per pixel.
pub proof fn lemma_rgb_len(img: ImageView)
    requires
        img.wf(),
    ensures
        crate::pixel::rgb_spec(img.color, img.pixels).len() == (img.width * img.height) * 3,
{
    let n = (img.width * img.height) as nat;
    let ch = img.color.spec_channels();
    crate::pixel::lemma_pack_len(ColorType::RGB8, crate::pixel::to_rgba(img.color, img.pixels, img.pixels.len() / ch));
    assert(img.pixels.len() / ch == n) by (nonlinear_arith)
        requires
            img.pixels.len() == n * ch,
            ch >= 1,
    ;
}

/// PPM data whose header reads `P6`, a width, a height and then a maximum
/// value other than 255 is refused for that maximum value, whatever follows.
pub proof fn lemma_ppm_max_value(d: Seq<u8>)
    requires
        ({
            let (t0, e0) = token_spec(d, 0);
            let (t1, e1) = token_spec(d, e0);
            let (t2, e2) = token_spec(d, e1);
            let (t3, e3) = token_spec(d, e2);
            &&& t0 == Some(seq![0x50u8, 0x36u8])
            &&& t1 is Some && parse_u32_spec(t1->Some_0) is Some
            &&& t2 is Some && parse_u32_spec(t2->Some_0) is Some
            &&& t3 is Some && parse_u32_spec(t3->Some_0) is Some
            &&& parse_u32_spec(t3->Some_0)->Some_0 != 255
        }),
    ensures
        parse_ppm_spec(d) == Err::<ImageView, PpmFailure>(PpmFailure::BadMaxValue),
{
}

proof fn lemma_demo_row_index(w: u32, h: u32, y: nat, n: nat, x: nat, k: int)
    requires
        x < n,
        0 <= k < 3,
    ensures
        demo_row(w, h, y, n)[3 * x + k] == demo_px(w, h, x, y)[k],
    decreases n,
{
    let m = (n - 1) as nat;
    lemma_demo_row_len(w, h, y, m);
    if x < m {
        lemma_demo_row_index(w, h, y, m, x, k);
    }
}

proof fn lemma_demo_rows_index(w: u32, h: u32, m: nat, y: nat, x: nat, k: int)
    requires
        y < m,
        x < w,
        0 <= k < 3,
    ensures
        3 * (y * w + x) + k < demo_rows(w, h, m).len(),
        demo_rows(w, h, m)[3 * (y * w + x) + k] == demo_px(w, h, x, y)[k],
    decreases m,
{
    let q = (m - 1) as nat;
    lemma_demo_len(w, h, q);
    lemma_demo_len(w, h, m);
    lemma_demo_row_len(w, h, q, w as nat);
    if y < q {
        assert(3 * (y * w + x) + k < 3 * w * q) by (nonlinear_arith)
            requires
                y < q,
                x < w,
                0 <= k < 3,
        ;
        lemma_demo_rows_index(w, h, q, y, x, k);
    } else {
        assert(3 * (y * w + x) + k == 3 * w * q + (3 * x + k)) by (nonlinear_arith)
            requires
                y == q,
        ;
        assert(3 * w * m == 3 * w * q + 3 * w) by (nonlinear_arith)
            requires
                m == q + 1,
        ;
        lemma_demo_row_index(w, h, q, w as nat, x, k);
    }
}

/// Pixel `(x, y)` of the demo image: red is `x * 255 / width`, green is
/// `y * 255 / height`, and blue is 32 on the 16 by 16 squares where
/// `x / 16 + y / 16` is even and 220 on the others.
pub proof fn lemma_demo_pixels(w: u32, h: u32, x: nat, y: nat)
    requires
        demo_spec(w, h) is Ok,
        x < w,
        y < h,
    ensures
        ({
            let p = demo_spec(w, h)->Ok_0.pixels;
            let at = 3 * (y * w + x);
            &&& at + 3 <= p.len()
            &&& p[at] == ((x * 255) / (w as nat)) as u8
            &&& p[at + 1] == ((y * 255) / (h as nat)) as u8
            &&& p[at + 2] == if (x / 16 + y / 16) % 2 == 0 {
                32u8
            } else {
                220u8
            }
        }),
{
    lemma_demo_rows_index(w, h, h as nat, y, x, 0);
    lemma_demo_rows_index(w, h, h as nat, y, x, 1);
    lemma_demo_rows_index(w, h, h as nat, y, x, 2);
}

} // verus!
