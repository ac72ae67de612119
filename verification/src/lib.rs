//! DBPX: a small deterministic lossless raster image format, with a
//! verified encoder and decoder.

pub mod bytes;
pub mod container;
pub mod crc;
pub mod error;
pub mod image;
pub mod indexed;
pub mod laws;
pub mod payload;
pub mod pixel;
pub mod ppm;
pub mod rle;
pub mod samples;
pub mod types;

pub use container::{decode, encode, encode_auto, info};
pub use error::{DbpxError, ErrorKind};
pub use image::{Image, Info};
pub use pixel::rgb_bytes;
pub use types::{ColorType, Compression, CHUNK_HEAD, HEADER_LEN, MAGIC, MAX_PIXELS};
