use dbpx::{decode, encode, encode_auto, info, ColorType, Compression, Image, CHUNK_HEAD, HEADER_LEN};

#[test]
fn roundtrip_rle_rgba() {
    let img = Image::new(
        3,
        1,
        ColorType::RGBA8,
        vec![1, 2, 3, 255, 1, 2, 3, 255, 4, 5, 6, 7],
    )
    .unwrap();
    assert_eq!(
        decode(&encode(&img, Compression::RLE).unwrap()).unwrap(),
        img
    );
}

#[test]
fn roundtrip_raw_rgb() {
    let img = Image::new(2, 1, ColorType::RGB8, vec![1, 2, 3, 4, 5, 6]).unwrap();
    assert_eq!(
        decode(&encode(&img, Compression::RAW).unwrap()).unwrap(),
        img
    );
}

#[test]
fn roundtrip_indexed_rgb() {
    let img = Image::new(
        4,
        1,
        ColorType::RGB8,
        vec![1, 2, 3, 4, 5, 6, 1, 2, 3, 4, 5, 6],
    )
    .unwrap();
    assert_eq!(
        decode(&encode(&img, Compression::INDEXED).unwrap()).unwrap(),
        img
    );
}

#[test]
fn encode_auto_prefers_raw_when_rle_and_indexed_are_larger() {
    let mut pixels = Vec::new();
    for i in 0..300u16 {
        pixels.extend_from_slice(&[(i & 0xFF) as u8, (i >> 8) as u8, 0]);
    }
    let img = Image::new(300, 1, ColorType::RGB8, pixels).unwrap();
    let encoded = encode_auto(&img).unwrap();
    assert_eq!(info(&encoded).unwrap().compression, Compression::RAW);
    assert_eq!(decode(&encoded).unwrap(), img);
}

#[test]
fn encode_auto_prefers_rle_when_rle_is_smaller() {
    let img = Image::new(
        8,
        1,
        ColorType::RGB8,
        vec![
            9, 8, 7, 9, 8, 7, 9, 8, 7, 9, 8, 7, 9, 8, 7, 9, 8, 7, 9, 8, 7, 9, 8, 7,
        ],
    )
    .unwrap();
    let encoded = encode_auto(&img).unwrap();
    assert_eq!(info(&encoded).unwrap().compression, Compression::RLE);
    assert_eq!(decode(&encoded).unwrap(), img);
}

#[test]
fn encode_auto_prefers_indexed_when_palette_is_smaller() {
    let mut pixels = Vec::new();
    for i in 0..64u8 {
        let color = if i % 2 == 0 {
            [10, 20, 30]
        } else {
            [40, 50, 60]
        };
        pixels.extend_from_slice(&color);
    }
    let img = Image::new(64, 1, ColorType::RGB8, pixels).unwrap();
    let encoded = encode_auto(&img).unwrap();
    assert_eq!(info(&encoded).unwrap().compression, Compression::INDEXED);
    assert_eq!(decode(&encoded).unwrap(), img);
}

#[test]
fn indexed_rejects_too_many_colors() {
    let mut pixels = Vec::new();
    for i in 0..257u16 {
        pixels.extend_from_slice(&[(i & 0xFF) as u8, (i >> 8) as u8, 1]);
    }
    let img = Image::new(257, 1, ColorType::RGB8, pixels).unwrap();
    let err = encode(&img, Compression::INDEXED).unwrap_err().to_string();
    assert!(err.contains("at most 256 colors"));
}

#[test]
fn lib_rejects_crc_mismatch() {
    let img = Image::new(1, 1, ColorType::RGB8, vec![1, 2, 3]).unwrap();
    let mut f = encode(&img, Compression::RAW).unwrap();
    f[HEADER_LEN + CHUNK_HEAD] ^= 1;
    assert!(decode(&f).unwrap_err().to_string().contains("CRC mismatch"));
}
