use dbpx::crc::crc_chunk;
use dbpx::pixel::xrgb_pixels;
use dbpx::error::{name, ErrorKind, Field};
use dbpx::{decode, encode, info, rgb_bytes, ColorType, Compression, DbpxError, Image, MAGIC};

/// A file with the given header fields and chunks, each chunk's CRC computed.
fn file(width: u32, height: u32, color: u8, comp: u8, count: u32, chunks: &[(&[u8; 4], &[u8])]) -> Vec<u8> {
    let mut out = Vec::new();
    out.extend_from_slice(&MAGIC);
    out.extend_from_slice(&[0, 1]);
    out.extend_from_slice(&28u16.to_le_bytes());
    out.extend_from_slice(&width.to_le_bytes());
    out.extend_from_slice(&height.to_le_bytes());
    out.extend_from_slice(&[color, 8, comp, 0]);
    out.extend_from_slice(&count.to_le_bytes());
    for (typ, body) in chunks {
        out.extend_from_slice(*typ);
        out.extend_from_slice(&(body.len() as u64).to_le_bytes());
        out.extend_from_slice(&crc_chunk(typ, body).to_le_bytes());
        out.extend_from_slice(body);
    }
    out
}

fn err(data: &[u8]) -> ErrorKind {
    decode(data).unwrap_err().kind
}

#[test]
fn crc_of_check_string() {
    assert_eq!(crc_chunk(b"1234", b"56789"), 0xCBF4_3926);
    assert_eq!(crc_chunk(b"END!", b""), crc_chunk(b"END!", &[]));
}

#[test]
fn encoded_bytes_of_one_pixel() {
    let img = Image::new(1, 1, ColorType::GRAY8, vec![7]).unwrap();
    let f = encode(&img, Compression::RAW).unwrap();
    let want = file(1, 1, 1, 0, 2, &[(b"PXLS", &[7]), (b"END!", &[])]);
    assert_eq!(f, want);
    assert_eq!(f.len(), 28 + 16 + 1 + 16);
    assert_eq!(&f[..8], b"DBPX\r\n\x1A\n");
}

#[test]
fn rle_payload_bytes() {
    let img = Image::new(3, 1, ColorType::GRAY8, vec![5, 5, 9]).unwrap();
    let f = encode(&img, Compression::RLE).unwrap();
    assert_eq!(&f[44..54], &[2, 5, 5, 5, 255, 1, 9, 9, 9, 255]);
    assert_eq!(info(&f).unwrap().pixel_payload_len, 10);
    assert_eq!(decode(&f).unwrap(), img);
}

#[test]
fn rle_runs_stop_at_255() {
    let img = Image::new(300, 1, ColorType::GRAY8, vec![4; 300]).unwrap();
    let f = encode(&img, Compression::RLE).unwrap();
    assert_eq!(&f[44..54], &[255, 4, 4, 4, 255, 45, 4, 4, 4, 255]);
    assert_eq!(decode(&f).unwrap(), img);
}

#[test]
fn indexed_payload_bytes() {
    let img = Image::new(3, 1, ColorType::RGBA8, vec![1, 2, 3, 4, 5, 6, 7, 8, 1, 2, 3, 4]).unwrap();
    let f = encode(&img, Compression::INDEXED).unwrap();
    assert_eq!(&f[44..56], &[1, 1, 2, 3, 4, 5, 6, 7, 8, 0, 1, 0]);
    assert_eq!(decode(&f).unwrap(), img);
}

#[test]
fn roundtrip_every_mode_and_color() {
    let cases = [
        (ColorType::GRAY8, vec![0u8, 0, 1, 200, 200, 200]),
        (ColorType::RGB8, (0u8..18).collect::<Vec<u8>>()),
        (ColorType::RGBA8, vec![9u8; 24]),
    ];
    for (color, pixels) in cases {
        let img = Image::new(3, 2, color, pixels).unwrap();
        for comp in [Compression::RAW, Compression::RLE, Compression::INDEXED] {
            let f = encode(&img, comp).unwrap();
            assert_eq!(decode(&f).unwrap(), img);
            let meta = info(&f).unwrap();
            assert_eq!((meta.width, meta.height, meta.color, meta.compression), (3, 2, color, comp));
        }
    }
}

#[test]
fn image_new_checks_shape() {
    assert_eq!(
        Image::new(2, 2, ColorType::RGB8, vec![0; 11]).unwrap_err().kind,
        ErrorKind::BadPixelLength { expected: 12, got: 11 }
    );
    assert_eq!(Image::new(0, 2, ColorType::RGB8, vec![]).unwrap_err().kind, ErrorKind::BadDimensions);
    assert_eq!(Image::new(65_536, 1, ColorType::GRAY8, vec![]).unwrap_err().kind, ErrorKind::BadDimensions);
    assert_eq!(
        Image::new(65_535, 65_535, ColorType::GRAY8, vec![]).unwrap_err().kind,
        ErrorKind::PixelLimit(65_535 * 65_535)
    );
    assert!(Image::new(8192, 8192, ColorType::GRAY8, vec![0; 8192 * 8192]).is_ok());
}

#[test]
fn encode_rejects_malformed_images() {
    let img = Image { width: 2, height: 1, color: ColorType::RGB8, pixels: vec![1, 2, 3] };
    assert_eq!(
        encode(&img, Compression::RAW).unwrap_err().kind,
        ErrorKind::BadPixelLength { expected: 6, got: 3 }
    );
}

#[test]
fn ids_and_names() {
    assert_eq!(ColorType::from_id(2).unwrap(), ColorType::RGB8);
    assert_eq!(ColorType::from_id(4).unwrap_err().kind, ErrorKind::BadColorType(4));
    assert_eq!(ColorType::RGBA8.id(), 3);
    assert_eq!(ColorType::GRAY8.channels(), 1);
    assert_eq!(ColorType::RGB8.channels(), 3);
    assert_eq!(ColorType::RGBA8.channels(), 4);
    assert_eq!(ColorType::GRAY8.name(), "GRAY8");
    assert_eq!(Compression::from_id(1).unwrap(), Compression::RLE);
    assert_eq!(Compression::from_id(3).unwrap_err().kind, ErrorKind::BadCompression(3));
    assert_eq!(Compression::INDEXED.id(), 2);
    assert_eq!(Compression::RLE.name(), "dbpx-rle");
    assert_eq!(Compression::INDEXED.name(), "dbpx-indexed");
}

#[test]
fn rgb_bytes_of_each_color() {
    let gray = Image::new(2, 1, ColorType::GRAY8, vec![3, 9]).unwrap();
    assert_eq!(rgb_bytes(&gray), vec![3, 3, 3, 9, 9, 9]);
    let rgb = Image::new(1, 1, ColorType::RGB8, vec![1, 2, 3]).unwrap();
    assert_eq!(rgb_bytes(&rgb), vec![1, 2, 3]);
    let rgba = Image::new(2, 1, ColorType::RGBA8, vec![1, 2, 3, 4, 5, 6, 7, 8]).unwrap();
    assert_eq!(rgb_bytes(&rgba), vec![1, 2, 3, 5, 6, 7]);
}

#[test]
fn messages() {
    let crc = DbpxError::of(ErrorKind::CrcMismatch { typ: *b"PXLS", expected: 0xABCD, got: 1 });
    assert_eq!(crc.to_string(), "CRC mismatch for PXLS: expected 0x0000ABCD, got 0x00000001");
    assert_eq!(DbpxError::of(ErrorKind::ReservedFlags(0x0F)).to_string(), "reserved flags set: 0x0F");
    assert_eq!(
        DbpxError::of(ErrorKind::UnsupportedVersion(1, 12)).to_string(),
        "unsupported DBPX version 1.12"
    );
    assert_eq!(
        DbpxError::of(ErrorKind::TrailingData(1)).to_string(),
        "trailing data after END!: 1 bytes"
    );
    assert_eq!(
        DbpxError::of(ErrorKind::UnknownChunk([0, b'A', b' ', 0x7E])).to_string(),
        "unknown chunk .A.~"
    );
    assert_eq!(
        DbpxError::of(ErrorKind::ChunkCountMismatch { expected: 1, got: 2 }).to_string(),
        "chunk count mismatch: expected 1, got 2"
    );
    assert_eq!(
        DbpxError::of(ErrorKind::PixelLimit(4_294_836_225)).to_string(),
        "pixel count exceeds limit: 4294836225"
    );
    assert_eq!(DbpxError::of(ErrorKind::TruncatedField(Field::U64)).to_string(), "truncated u64");
    assert_eq!(DbpxError::of(ErrorKind::OffsetOverflow(Field::Array4)).to_string(), "array4 offset overflow");
    assert_eq!(DbpxError::new("custom".to_string()).to_string(), "custom");
    assert_eq!(name(b"END!"), "END!");
    assert_eq!(name(&[0x20, 0x7F, 0x21, 0x80]), "..!.");
}

#[test]
fn rejects_each_header_rule() {
    let good = file(1, 1, 2, 0, 2, &[(b"PXLS", &[1, 2, 3]), (b"END!", &[])]);
    assert!(decode(&good).is_ok());
    let mut f = good.clone();
    f[10] = 29;
    assert_eq!(err(&f), ErrorKind::BadHeaderSize(29));
    let mut f = good.clone();
    f[20] = 0;
    assert_eq!(err(&f), ErrorKind::BadColorType(0));
    let mut f = good.clone();
    f[21] = 16;
    assert_eq!(err(&f), ErrorKind::BadBitDepth(16));
    let mut f = good.clone();
    f[8] = 2;
    f[9] = 7;
    assert_eq!(err(&f), ErrorKind::UnsupportedVersion(2, 7));
    let f = file(40_000, 40_000, 2, 0, 2, &[]);
    assert_eq!(err(&f), ErrorKind::PixelLimit(1_600_000_000));
    assert_eq!(err(&good[..27]), ErrorKind::TruncatedHeader);
    let mut f = good.clone();
    f[9] = 200;
    assert!(decode(&f).is_ok());
}

#[test]
fn rejects_each_chunk_rule() {
    let good = file(1, 1, 2, 0, 2, &[(b"PXLS", &[1, 2, 3]), (b"END!", &[])]);
    assert_eq!(err(&good[..28 + 10]), ErrorKind::TruncatedChunkHeader);
    assert_eq!(err(&good[..28 + 17]), ErrorKind::TruncatedChunkData);
    let dup = file(1, 1, 2, 0, 3, &[(b"PXLS", &[1, 2, 3]), (b"PXLS", &[1, 2, 3]), (b"END!", &[])]);
    assert_eq!(err(&dup), ErrorKind::DuplicatePixels);
    let unknown = file(1, 1, 2, 0, 3, &[(b"PXLS", &[1, 2, 3]), (b"meta", &[]), (b"END!", &[])]);
    assert_eq!(err(&unknown), ErrorKind::UnknownChunk(*b"meta"));
    let no_px = file(1, 1, 2, 0, 1, &[(b"END!", &[])]);
    assert_eq!(err(&no_px), ErrorKind::MissingPixels);
    let only_header = file(1, 1, 2, 0, 0, &[]);
    assert_eq!(err(&only_header), ErrorKind::MissingEnd);
    let mut huge = good.clone();
    huge[32..40].copy_from_slice(&u64::MAX.to_le_bytes());
    assert_eq!(err(&huge), ErrorKind::ChunkLengthOverflow);
    let mut bad_crc = good.clone();
    bad_crc[40] ^= 0xFF;
    match err(&bad_crc) {
        ErrorKind::CrcMismatch { typ, .. } => assert_eq!(&typ, b"PXLS"),
        other => panic!("unexpected error: {:?}", other),
    }
    let mut long = good.clone();
    long.extend_from_slice(&[1, 2, 3]);
    assert_eq!(err(&long), ErrorKind::TrailingData(3));
    let raw_short = file(1, 1, 2, 0, 2, &[(b"PXLS", &[1, 2]), (b"END!", &[])]);
    assert_eq!(err(&raw_short), ErrorKind::BadPixelLength { expected: 3, got: 2 });
}

#[test]
fn rejects_malformed_rle() {
    let f = file(2, 1, 1, 1, 2, &[(b"PXLS", &[1, 0, 0, 0]), (b"END!", &[])]);
    assert_eq!(err(&f), ErrorKind::BadRleLength);
    let f = file(2, 1, 1, 1, 2, &[(b"PXLS", &[0, 1, 1, 1, 255]), (b"END!", &[])]);
    assert_eq!(err(&f), ErrorKind::ZeroRun);
    let f = file(2, 1, 1, 1, 2, &[(b"PXLS", &[3, 1, 1, 1, 255]), (b"END!", &[])]);
    assert_eq!(err(&f), ErrorKind::RunExceedsPixels);
    let f = file(2, 1, 1, 1, 2, &[(b"PXLS", &[1, 1, 1, 1, 255]), (b"END!", &[])]);
    assert_eq!(err(&f), ErrorKind::RleCountMismatch);
    let f = file(2, 1, 1, 1, 2, &[(b"PXLS", &[1, 7, 1, 1, 255, 1, 8, 2, 2, 0]), (b"END!", &[])]);
    assert_eq!(decode(&f).unwrap().pixels, vec![7, 8]);
}

#[test]
fn rejects_malformed_indexed() {
    let f = file(1, 1, 3, 2, 2, &[(b"PXLS", &[]), (b"END!", &[])]);
    assert_eq!(err(&f), ErrorKind::TruncatedIndexed);
    let f = file(1, 1, 3, 2, 2, &[(b"PXLS", &[1, 1, 2, 3, 4]), (b"END!", &[])]);
    assert_eq!(err(&f), ErrorKind::TruncatedPalette);
    let f = file(1, 1, 3, 2, 2, &[(b"PXLS", &[0, 1, 2, 3, 4, 0, 0]), (b"END!", &[])]);
    assert_eq!(err(&f), ErrorKind::BadIndexedCount { expected: 1, got: 2 });
    let f = file(1, 1, 3, 2, 2, &[(b"PXLS", &[0, 1, 2, 3, 4, 1]), (b"END!", &[])]);
    assert_eq!(err(&f), ErrorKind::MissingPaletteEntry(1));
    let f = file(1, 1, 3, 2, 2, &[(b"PXLS", &[0, 1, 2, 3, 4, 0]), (b"END!", &[])]);
    assert_eq!(decode(&f).unwrap().pixels, vec![1, 2, 3, 4]);
}

#[test]
fn xrgb_words() {
    assert_eq!(xrgb_pixels(&[1, 2, 3, 0xFF, 0, 0x10, 9]), vec![0x0001_0203, 0x00FF_0010]);
    assert_eq!(xrgb_pixels(&[]), Vec::<u32>::new());
}
