use dbpx::container::{chunks, ChunkEntry};
use dbpx::crc::crc_chunk;
use dbpx::error::ErrorKind;
use dbpx::{decode, encode, encode_auto, info, ColorType, Compression, Image};

fn sample() -> Image {
    Image::new(4, 2, ColorType::RGBA8, (0u8..32).map(|b| b / 8).collect()).unwrap()
}

#[test]
fn decode_inverts_encode() {
    let img = sample();
    for comp in [Compression::RAW, Compression::RLE, Compression::INDEXED] {
        assert_eq!(decode(&encode(&img, comp).unwrap()).unwrap(), img);
    }
}

#[test]
fn header_reports_encoding() {
    let img = sample();
    let f = encode(&img, Compression::RLE).unwrap();
    let meta = info(&f).unwrap();
    assert_eq!((meta.width, meta.height, meta.color, meta.compression), (4, 2, ColorType::RGBA8, Compression::RLE));
    assert_eq!(meta.pixel_payload_len as usize, f.len() - 28 - 32);
}

#[test]
fn auto_is_smallest() {
    let img = sample();
    let auto = encode_auto(&img).unwrap();
    for comp in [Compression::RAW, Compression::RLE, Compression::INDEXED] {
        if let Ok(f) = encode(&img, comp) {
            assert!(auto.len() <= f.len());
        }
    }
    assert_eq!(decode(&auto).unwrap(), img);
}

#[test]
fn appended_bytes_are_reported() {
    let mut f = encode(&sample(), Compression::RAW).unwrap();
    f.extend_from_slice(&[0, 0, 0]);
    assert_eq!(decode(&f).unwrap_err().kind, ErrorKind::TrailingData(3));
    assert_eq!(info(&f).unwrap_err().kind, ErrorKind::TrailingData(3));
}

#[test]
fn any_payload_byte_change_is_detected() {
    let f = encode(&sample(), Compression::RAW).unwrap();
    let n = info(&f).unwrap().pixel_payload_len as usize;
    for k in 44..44 + n {
        for flip in [1u8, 0x80, 0xFF] {
            let mut g = f.clone();
            g[k] ^= flip;
            match decode(&g).unwrap_err().kind {
                ErrorKind::CrcMismatch { typ, .. } => assert_eq!(&typ, b"PXLS"),
                other => panic!("unexpected error: {:?}", other),
            }
        }
    }
}

#[test]
fn valid_files_hold_two_chunks() {
    let f = encode(&sample(), Compression::INDEXED).unwrap();
    let n = info(&f).unwrap().pixel_payload_len;
    let table = chunks(&f).unwrap();
    assert_eq!(
        table,
        vec![
            ChunkEntry { typ: *b"PXLS", len: n, crc: crc_chunk(b"PXLS", &f[44..44 + n as usize]) },
            ChunkEntry { typ: *b"END!", len: 0, crc: crc_chunk(b"END!", &[]) },
        ]
    );
    assert_eq!(chunks(&f[..20]).unwrap_err().kind, ErrorKind::TruncatedHeader);
}

#[test]
fn indexed_limit_is_256_colors() {
    let mut px = Vec::new();
    for i in 0..256u16 {
        px.push(i as u8);
    }
    let img = Image::new(256, 1, ColorType::GRAY8, px.clone()).unwrap();
    assert!(encode(&img, Compression::INDEXED).is_ok());
    let mut rgb = Vec::new();
    for i in 0..256u16 {
        rgb.extend_from_slice(&[i as u8, 0, 0]);
    }
    rgb.extend_from_slice(&[0, 1, 0]);
    let img = Image::new(257, 1, ColorType::RGB8, rgb).unwrap();
    assert_eq!(encode(&img, Compression::INDEXED).unwrap_err().kind, ErrorKind::TooManyColors);
}

#[test]
fn any_type_or_crc_byte_change_is_detected() {
    let f = encode(&sample(), Compression::RLE).unwrap();
    let n = info(&f).unwrap().pixel_payload_len as usize;
    let mid = 44 + n;
    let positions: Vec<usize> = (28..32).chain(40..44).chain(mid..mid + 4).chain(mid + 12..mid + 16).collect();
    for k in positions {
        let mut g = f.clone();
        g[k] ^= 0x10;
        match decode(&g).unwrap_err().kind {
            ErrorKind::CrcMismatch { .. } => {}
            other => panic!("unexpected error at {k}: {:?}", other),
        }
    }
}
