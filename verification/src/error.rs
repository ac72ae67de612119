//! Errors of the DBPX codec and their human-readable messages.

use vstd::prelude::*;

verus! {

/// The fixed-width little-endian fields that the header and chunk readers take.
#[derive(Debug, Clone, Copy, PartialEq, Eq, Structural)]
pub enum Field {
    Array4,
    U16,
    U32,
    U64,
}

/// What went wrong. Each variant carries the values its message reports.
#[derive(Debug, Clone, PartialEq, Eq)]
pub enum ErrorKind {
    /// A message given by the caller.
    Message(String),
    BadColorType(u8),
    BadCompression(u8),
    TruncatedHeader,
    BadMagic,
    UnsupportedVersion(u8, u8),
    BadHeaderSize(u16),
    BadBitDepth(u8),
    ReservedFlags(u8),
    BadDimensions,
    PixelLimit(u64),
    PixelByteOverflow,
    PixelByteOverflowsUsize,
    BadPixelLength { expected: usize, got: usize },
    OffsetOverflow(Field),
    TruncatedField(Field),
    TruncatedChunkHeader,
    ChunkLengthOverflowsUsize,
    ChunkLengthOverflow,
    TruncatedChunkData,
    CrcMismatch { typ: [u8; 4], expected: u32, got: u32 },
    ChunkCountOverflow,
    DuplicatePixels,
    UnknownChunk([u8; 4]),
    MissingEnd,
    MissingPixels,
    ChunkCountMismatch { expected: u32, got: u32 },
    TrailingData(usize),
    BadRleLength,
    ZeroRun,
    RunExceedsPixels,
    RleCountMismatch,
    TooManyColors,
    NoColors,
    TruncatedIndexed,
    TruncatedPalette,
    BadIndexedCount { expected: usize, got: usize },
    MissingPaletteEntry(u8),
}

/// A DBPX error.
#[derive(Debug, Clone, PartialEq, Eq)]
pub struct DbpxError {
    pub kind: ErrorKind,
}

pub open spec fn digit_char(d: nat) -> char {
    if d < 10 {
        (d + 48) as char
    } else {
        (d + 55) as char
    }
}

/// Decimal digits of `n`, most significant first, no leading zeros.
pub open spec fn decimal(n: nat) -> Seq<char>
    decreases n,
{
    if n < 10 {
        seq![digit_char(n)]
    } else {
        decimal(n / 10).push(digit_char(n % 10))
    }
}

/// The lowest `w` hexadecimal digits of `n`, upper case, most significant first.
pub open spec fn hex(n: nat, w: nat) -> Seq<char>
    decreases w,
{
    if w == 0 {
        Seq::empty()
    } else {
        hex(n / 16, (w - 1) as nat).push(digit_char(n % 16))
    }
}

/// Whether a byte is a printable ASCII character other than space.
pub open spec fn is_graphic(b: u8) -> bool {
    0x21 <= b <= 0x7E
}

/// A chunk type as text: printable bytes as they are, others as `.`.
pub open spec fn chunk_name(t: Seq<u8>) -> Seq<char> {
    Seq::new(t.len(), |i: int| if is_graphic(t[i]) { t[i] as char } else { '.' })
}

pub open spec fn field_name(f: Field) -> Seq<char> {
    match f {
        Field::Array4 => "array4"@,
        Field::U16 => "u16"@,
        Field::U32 => "u32"@,
        Field::U64 => "u64"@,
    }
}

/// The message of each kind of error.
pub open spec fn error_text(k: ErrorKind) -> Seq<char> {
    match k {
        ErrorKind::Message(m) => m@,
        ErrorKind::BadColorType(id) => "bad color type "@ + decimal(id as nat),
        ErrorKind::BadCompression(id) => "bad compression "@ + decimal(id as nat),
        ErrorKind::TruncatedHeader => "truncated header"@,
        ErrorKind::BadMagic => "bad DBPX magic"@,
        ErrorKind::UnsupportedVersion(major, minor) => "unsupported DBPX version "@ + decimal(
            major as nat,
        ) + "."@ + decimal(minor as nat),
        ErrorKind::BadHeaderSize(n) => "bad header size "@ + decimal(n as nat),
        ErrorKind::BadBitDepth(n) => "bad bit depth "@ + decimal(n as nat),
        ErrorKind::ReservedFlags(f) => "reserved flags set: 0x"@ + hex(f as nat, 2),
        ErrorKind::BadDimensions => "dimensions must be non-zero and <= 65535"@,
        ErrorKind::PixelLimit(n) => "pixel count exceeds limit: "@ + decimal(n as nat),
        ErrorKind::PixelByteOverflow => "pixel byte count overflow"@,
        ErrorKind::PixelByteOverflowsUsize => "pixel byte count overflows usize"@,
        ErrorKind::BadPixelLength { expected, got } => "bad pixel length: expected "@ + decimal(
            expected as nat,
        ) + ", got "@ + decimal(got as nat),
        ErrorKind::OffsetOverflow(f) => field_name(f) + " offset overflow"@,
        ErrorKind::TruncatedField(f) => "truncated "@ + field_name(f),
        ErrorKind::TruncatedChunkHeader => "truncated chunk header"@,
        ErrorKind::ChunkLengthOverflowsUsize => "chunk length overflows usize"@,
        ErrorKind::ChunkLengthOverflow => "chunk length overflow"@,
        ErrorKind::TruncatedChunkData => "truncated chunk data"@,
        ErrorKind::CrcMismatch { typ, expected, got } => "CRC mismatch for "@ + chunk_name(typ@)
            + ": expected 0x"@ + hex(expected as nat, 8) + ", got 0x"@ + hex(got as nat, 8),
        ErrorKind::ChunkCountOverflow => "chunk count overflow"@,
        ErrorKind::DuplicatePixels => "duplicate PXLS chunk"@,
        ErrorKind::UnknownChunk(typ) => "unknown chunk "@ + chunk_name(typ@),
        ErrorKind::MissingEnd => "missing END! chunk"@,
        ErrorKind::MissingPixels => "missing PXLS chunk"@,
        ErrorKind::ChunkCountMismatch { expected, got } => "chunk count mismatch: expected "@
            + decimal(expected as nat) + ", got "@ + decimal(got as nat),
        ErrorKind::TrailingData(n) => "trailing data after END!: "@ + decimal(n as nat)
            + " bytes"@,
        ErrorKind::BadRleLength => "bad RLE payload length"@,
        ErrorKind::ZeroRun => "zero-length RLE run"@,
        ErrorKind::RunExceedsPixels => "RLE run exceeds pixel count"@,
        ErrorKind::RleCountMismatch => "RLE decoded pixel count mismatch"@,
        ErrorKind::TooManyColors => "indexed compression supports at most 256 colors"@,
        ErrorKind::NoColors => "indexed compression requires at least one color"@,
        ErrorKind::TruncatedIndexed => "truncated indexed payload"@,
        ErrorKind::TruncatedPalette => "truncated indexed palette"@,
        ErrorKind::BadIndexedCount { expected, got } => "bad indexed pixel count: expected "@
            + decimal(expected as nat) + ", got "@ + decimal(got as nat),
        ErrorKind::MissingPaletteEntry(i) => "indexed pixel uses missing palette entry "@
            + decimal(i as nat),
    }
}

/// Appends one character (std's `String::push`).
#[verifier::external_body]
pub(crate) fn push_char(s: &mut String, c: char)
    ensures
        final(s)@ == old(s)@.push(c),
{
    s.push(c);
}

fn digit(d: u64) -> (c: char)
    requires
        d < 16,
    ensures
        c == digit_char(d as nat),
{
    if d < 10 {
        ((d + 48) as u8) as char
    } else {
        ((d + 55) as u8) as char
    }
}

pub(crate) fn push_decimal(s: &mut String, n: u64)
    ensures
        final(s)@ == old(s)@ + decimal(n as nat),
    decreases n,
{
    if n >= 10 {
        push_decimal(s, n / 10);
    }
    push_char(s, digit(n % 10));
    proof {
        if n >= 10 {
            assert(final(s)@ =~= old(s)@ + decimal(n as nat));
        } else {
            assert(final(s)@ =~= old(s)@ + decimal(n as nat));
        }
    }
}

fn push_hex(s: &mut String, n: u64, w: u64)
    ensures
        final(s)@ == old(s)@ + hex(n as nat, w as nat),
    decreases w,
{
    if w > 0 {
        push_hex(s, n / 16, w - 1);
        push_char(s, digit(n % 16));
        assert(final(s)@ =~= old(s)@ + hex(n as nat, w as nat));
    } else {
        assert(final(s)@ =~= old(s)@ + hex(n as nat, w as nat));
    }
}

fn push_chunk_name(s: &mut String, t: &[u8; 4])
    ensures
        final(s)@ == old(s)@ + chunk_name(t@),
{
    let mut i: usize = 0;
    while i < 4
        invariant
            i <= 4,
            t@.len() == 4,
            s@ == old(s)@ + chunk_name(t@).take(i as int),
        decreases 4 - i,
    {
        let b = t[i];
        if 0x21 <= b && b <= 0x7E {
            push_char(s, b as char);
        } else {
            push_char(s, '.');
        }
        assert(chunk_name(t@).take(i + 1) =~= chunk_name(t@).take(i as int).push(
            chunk_name(t@)[i as int],
        ));
        i = i + 1;
    }
    assert(chunk_name(t@).take(4) =~= chunk_name(t@));
}

/// A chunk type as text: printable ASCII bytes as they are, others as `.`.
pub fn name(c: &[u8; 4]) -> (s: String)
    ensures
        s@ == chunk_name(c@),
{
    let mut s = String::new();
    push_chunk_name(&mut s, c);
    assert(s@ =~= chunk_name(c@));
    s
}

fn field_str(f: Field) -> (r: &'static str)
    ensures
        r@ == field_name(f),
{
    match f {
        Field::Array4 => "array4",
        Field::U16 => "u16",
        Field::U32 => "u32",
        Field::U64 => "u64",
    }
}

impl DbpxError {
    /// An error with the given message.
    pub fn new(message: String) -> (e: Self)
        ensures
            e.kind == ErrorKind::Message(message),
    {
        DbpxError { kind: ErrorKind::Message(message) }
    }

    /// An error of the given kind.
    pub fn of(kind: ErrorKind) -> (e: Self)
        ensures
            e.kind == kind,
    {
        DbpxError { kind }
    }

    /// The error's message.
    pub fn to_string(&self) -> (s: String)
        ensures
            s@ == error_text(self.kind),
    {
        let mut s = String::new();
        match &self.kind {
            ErrorKind::Message(m) => {
                return m.clone();
            },
            ErrorKind::BadColorType(id) => {
                s.append("bad color type ");
                push_decimal(&mut s, *id as u64);
            },
            ErrorKind::BadCompression(id) => {
                s.append("bad compression ");
                push_decimal(&mut s, *id as u64);
            },
            ErrorKind::TruncatedHeader => s.append("truncated header"),
            ErrorKind::BadMagic => s.append("bad DBPX magic"),
            ErrorKind::UnsupportedVersion(major, minor) => {
                s.append("unsupported DBPX version ");
                push_decimal(&mut s, *major as u64);
                s.append(".");
                push_decimal(&mut s, *minor as u64);
            },
            ErrorKind::BadHeaderSize(n) => {
                s.append("bad header size ");
                push_decimal(&mut s, *n as u64);
            },
            ErrorKind::BadBitDepth(n) => {
                s.append("bad bit depth ");
                push_decimal(&mut s, *n as u64);
            },
            ErrorKind::ReservedFlags(f) => {
                s.append("reserved flags set: 0x");
                push_hex(&mut s, *f as u64, 2);
            },
            ErrorKind::BadDimensions => s.append("dimensions must be non-zero and <= 65535"),
            ErrorKind::PixelLimit(n) => {
                s.append("pixel count exceeds limit: ");
                push_decimal(&mut s, *n);
            },
            ErrorKind::PixelByteOverflow => s.append("pixel byte count overflow"),
            ErrorKind::PixelByteOverflowsUsize => s.append("pixel byte count overflows usize"),
            ErrorKind::BadPixelLength { expected, got } => {
                s.append("bad pixel length: expected ");
                push_decimal(&mut s, *expected as u64);
                s.append(", got ");
                push_decimal(&mut s, *got as u64);
            },
            ErrorKind::OffsetOverflow(f) => {
                s.append(field_str(*f));
                s.append(" offset overflow");
            },
            ErrorKind::TruncatedField(f) => {
                s.append("truncated ");
                s.append(field_str(*f));
            },
            ErrorKind::TruncatedChunkHeader => s.append("truncated chunk header"),
            ErrorKind::ChunkLengthOverflowsUsize => s.append("chunk length overflows usize"),
            ErrorKind::ChunkLengthOverflow => s.append("chunk length overflow"),
            ErrorKind::TruncatedChunkData => s.append("truncated chunk data"),
            ErrorKind::CrcMismatch { typ, expected, got } => {
                s.append("CRC mismatch for ");
                push_chunk_name(&mut s, typ);
                s.append(": expected 0x");
                push_hex(&mut s, *expected as u64, 8);
                s.append(", got 0x");
                push_hex(&mut s, *got as u64, 8);
            },
            ErrorKind::ChunkCountOverflow => s.append("chunk count overflow"),
            ErrorKind::DuplicatePixels => s.append("duplicate PXLS chunk"),
            ErrorKind::UnknownChunk(typ) => {
                s.append("unknown chunk ");
                push_chunk_name(&mut s, typ);
            },
            ErrorKind::MissingEnd => s.append("missing END! chunk"),
            ErrorKind::MissingPixels => s.append("missing PXLS chunk"),
            ErrorKind::ChunkCountMismatch { expected, got } => {
                s.append("chunk count mismatch: expected ");
                push_decimal(&mut s, *expected as u64);
                s.append(", got ");
                push_decimal(&mut s, *got as u64);
            },
            ErrorKind::TrailingData(n) => {
                s.append("trailing data after END!: ");
                push_decimal(&mut s, *n as u64);
                s.append(" bytes");
            },
            ErrorKind::BadRleLength => s.append("bad RLE payload length"),
            ErrorKind::ZeroRun => s.append("zero-length RLE run"),
            ErrorKind::RunExceedsPixels => s.append("RLE run exceeds pixel count"),
            ErrorKind::RleCountMismatch => s.append("RLE decoded pixel count mismatch"),
            ErrorKind::TooManyColors => s.append("indexed compression supports at most 256 colors"),
            ErrorKind::NoColors => s.append("indexed compression requires at least one color"),
            ErrorKind::TruncatedIndexed => s.append("truncated indexed payload"),
            ErrorKind::TruncatedPalette => s.append("truncated indexed palette"),
            ErrorKind::BadIndexedCount { expected, got } => {
                s.append("bad indexed pixel count: expected ");
                push_decimal(&mut s, *expected as u64);
                s.append(", got ");
                push_decimal(&mut s, *got as u64);
            },
            ErrorKind::MissingPaletteEntry(i) => {
                s.append("indexed pixel uses missing palette entry ");
                push_decimal(&mut s, *i as u64);
            },
        }
        s
    }
}

} // verus!
