//! The value types of DBPX: color types, compression modes, images and
//! header information.

use crate::error::{DbpxError, ErrorKind};
use vstd::prelude::*;

verus! {

/// The eight magic bytes that open every DBPX file: `DBPX\r\n\x1A\n`.
pub const MAGIC: [u8; 8] = [0x44, 0x42, 0x50, 0x58, 0x0D, 0x0A, 0x1A, 0x0A];

/// Length of the fixed file header.
pub const HEADER_LEN: usize = 28;

/// Largest number of pixels a DBPX image may hold.
pub const MAX_PIXELS: u64 = 67_108_864;

/// Largest width or height.
pub const MAX_DIM: u32 = 65_535;

/// Length of a chunk header: type, payload length and CRC.
pub const CHUNK_HEAD: usize = 16;

/// Type of the chunk that holds the pixel payload: `PXLS`.
pub const PXLS: [u8; 4] = [0x50, 0x58, 0x4C, 0x53];

/// Type of the chunk that closes a file: `END!`.
pub const END: [u8; 4] = [0x45, 0x4E, 0x44, 0x21];

/// The colour layout of an image's pixels.
#[allow(non_camel_case_types)]
#[derive(Debug, Clone, Copy, PartialEq, Eq, Structural)]
pub enum ColorType {
    /// One byte per pixel (grey level). Id 1.
    GRAY8,
    /// Three bytes per pixel. Id 2.
    RGB8,
    /// Four bytes per pixel, straight alpha. Id 3.
    RGBA8,
}

impl ColorType {
    pub open spec fn spec_id(self) -> u8 {
        match self {
            ColorType::GRAY8 => 1,
            ColorType::RGB8 => 2,
            ColorType::RGBA8 => 3,
        }
    }

    pub open spec fn spec_channels(self) -> nat {
        match self {
            ColorType::GRAY8 => 1,
            ColorType::RGB8 => 3,
            ColorType::RGBA8 => 4,
        }
    }

    /// The colour type with the given on-disk id, if any.
    pub open spec fn spec_from_id(id: u8) -> Option<ColorType> {
        if id == 1 {
            Some(ColorType::GRAY8)
        } else if id == 2 {
            Some(ColorType::RGB8)
        } else if id == 3 {
            Some(ColorType::RGBA8)
        } else {
            None
        }
    }

    /// The colour type with on-disk id `id`.
    pub fn from_id(id: u8) -> (r: Result<ColorType, DbpxError>)
        ensures
            match r {
                Ok(c) => ColorType::spec_from_id(id) == Some(c),
                Err(e) => ColorType::spec_from_id(id) is None && e.kind == ErrorKind::BadColorType(
                    id,
                ),
            },
    {
        match id {
            1 => Ok(ColorType::GRAY8),
            2 => Ok(ColorType::RGB8),
            3 => Ok(ColorType::RGBA8),
            _ => Err(DbpxError::of(ErrorKind::BadColorType(id))),
        }
    }

    /// The on-disk id of this colour type.
    pub fn id(self) -> (r: u8)
        ensures
            r == self.spec_id(),
    {
        match self {
            ColorType::GRAY8 => 1,
            ColorType::RGB8 => 2,
            ColorType::RGBA8 => 3,
        }
    }

    /// Bytes per pixel.
    pub fn channels(self) -> (r: usize)
        ensures
            r == self.spec_channels(),
    {
        match self {
            ColorType::GRAY8 => 1,
            ColorType::RGB8 => 3,
            ColorType::RGBA8 => 4,
        }
    }

    /// Display name of this colour type.
    pub fn name(self) -> (r: &'static str)
        ensures
            r@ == (match self {
                ColorType::GRAY8 => "GRAY8"@,
                ColorType::RGB8 => "RGB8"@,
                ColorType::RGBA8 => "RGBA8"@,
            }),
    {
        match self {
            ColorType::GRAY8 => "GRAY8",
            ColorType::RGB8 => "RGB8",
            ColorType::RGBA8 => "RGBA8",
        }
    }
}

/// How the pixel payload is stored.
#[allow(non_camel_case_types)]
#[derive(Debug, Clone, Copy, PartialEq, Eq, Structural)]
pub enum Compression {
    /// Pixels stored as they are. Id 0.
    RAW,
    /// Runs of RGBA pixels. Id 1.
    RLE,
    /// A palette of at most 256 RGBA colours followed by one index per pixel. Id 2.
    INDEXED,
}

impl Compression {
    pub open spec fn spec_id(self) -> u8 {
        match self {
            Compression::RAW => 0,
            Compression::RLE => 1,
            Compression::INDEXED => 2,
        }
    }

    pub open spec fn spec_from_id(id: u8) -> Option<Compression> {
        if id == 0 {
            Some(Compression::RAW)
        } else if id == 1 {
            Some(Compression::RLE)
        } else if id == 2 {
            Some(Compression::INDEXED)
        } else {
            None
        }
    }

    /// The compression mode with on-disk id `id`.
    pub fn from_id(id: u8) -> (r: Result<Compression, DbpxError>)
        ensures
            match r {
                Ok(c) => Compression::spec_from_id(id) == Some(c),
                Err(e) => Compression::spec_from_id(id) is None && e.kind
                    == ErrorKind::BadCompression(id),
            },
    {
        match id {
            0 => Ok(Compression::RAW),
            1 => Ok(Compression::RLE),
            2 => Ok(Compression::INDEXED),
            _ => Err(DbpxError::of(ErrorKind::BadCompression(id))),
        }
    }

    /// The on-disk id of this compression mode.
    pub fn id(self) -> (r: u8)
        ensures
            r == self.spec_id(),
    {
        match self {
            Compression::RAW => 0,
            Compression::RLE => 1,
            Compression::INDEXED => 2,
        }
    }

    /// Display name of this compression mode.
    pub fn name(self) -> (r: &'static str)
        ensures
            r@ == (match self {
                Compression::RAW => "raw"@,
                Compression::RLE => "dbpx-rle"@,
                Compression::INDEXED => "dbpx-indexed"@,
            }),
    {
        match self {
            Compression::RAW => "raw",
            Compression::RLE => "dbpx-rle",
            Compression::INDEXED => "dbpx-indexed",
        }
    }
}

} // verus!
