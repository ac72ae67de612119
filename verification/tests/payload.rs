use dbpx::error::ErrorKind;
use dbpx::indexed::encode_indexed;
use dbpx::payload::{decode_indexed, decode_rle, raw};
use dbpx::rle::encode_rle;
use dbpx::{ColorType, Compression, Image, Info};

fn meta(width: u32, height: u32, color: ColorType, compression: Compression) -> Info {
    Info { width, height, color, compression, pixel_payload_len: 0 }
}

#[test]
fn payload_decoders_ignore_the_mode_field() {
    let m = meta(2, 1, ColorType::GRAY8, Compression::RAW);
    assert_eq!(decode_rle(&m, &[2, 9, 9, 9, 255]).unwrap(), vec![9, 9]);
    assert_eq!(decode_indexed(&m, &[0, 5, 5, 5, 255, 0, 0]).unwrap(), vec![5, 5]);
    let m = meta(1, 1, ColorType::RGB8, Compression::RLE);
    assert_eq!(raw(&m, &[1, 2, 3]).unwrap(), vec![1, 2, 3]);
    assert_eq!(raw(&m, &[1, 2]).unwrap_err().kind, ErrorKind::BadPixelLength { expected: 3, got: 2 });
}

#[test]
fn payload_decoders_take_any_size() {
    let m = meta(100_000, 1, ColorType::GRAY8, Compression::RLE);
    let mut p = Vec::new();
    for _ in 0..392 {
        p.extend_from_slice(&[255, 1, 1, 1, 255]);
    }
    p.extend_from_slice(&[40, 1, 1, 1, 255]);
    assert_eq!(decode_rle(&m, &p).unwrap(), vec![1; 100_000]);
    assert_eq!(decode_rle(&m, &[1, 1, 1, 1, 255]).unwrap_err().kind, ErrorKind::RleCountMismatch);
    assert_eq!(
        decode_indexed(&m, &[0, 1, 1, 1, 255]).unwrap_err().kind,
        ErrorKind::BadIndexedCount { expected: 100_000, got: 0 }
    );
}

#[test]
fn payload_encoders_on_empty_and_surplus_images() {
    let empty = Image { width: 0, height: 5, color: ColorType::RGB8, pixels: vec![] };
    assert_eq!(encode_rle(&empty), Vec::<u8>::new());
    assert_eq!(encode_indexed(&empty).unwrap_err().kind, ErrorKind::NoColors);
    let surplus = Image { width: 1, height: 1, color: ColorType::GRAY8, pixels: vec![4, 7, 7] };
    assert_eq!(encode_rle(&surplus), vec![1, 4, 4, 4, 255]);
    assert_eq!(encode_indexed(&surplus).unwrap(), vec![0, 4, 4, 4, 255, 0]);
}
