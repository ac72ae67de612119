use dbpx::error::ErrorKind;
use dbpx::ppm::{demo, parse_ppm, parse_u32, ppm_bytes, token, PpmError, PpmField};
use dbpx::samples::{flat2, gradient, solid, stripes};
use dbpx::{ColorType, Image};

fn ppm_err(data: &[u8]) -> String {
    parse_ppm(data).unwrap_err().to_string()
}

#[test]
fn parses_binary_ppm_with_comments() {
    let mut data = b"P6 # made by hand\n2 1\n# max\n255\n".to_vec();
    data.extend_from_slice(&[1, 2, 3, 4, 5, 6]);
    let img = parse_ppm(&data).unwrap();
    assert_eq!(img, Image::new(2, 1, ColorType::RGB8, vec![1, 2, 3, 4, 5, 6]).unwrap());
}

#[test]
fn ppm_roundtrip_through_ppm_bytes() {
    let img = Image::new(3, 2, ColorType::RGB8, (10u8..28).collect()).unwrap();
    let bytes = ppm_bytes(&img);
    assert!(bytes.starts_with(b"P6\n3 2\n255\n"));
    assert_eq!(parse_ppm(&bytes).unwrap(), img);
    let gray = Image::new(2, 1, ColorType::GRAY8, vec![7, 9]).unwrap();
    let back = parse_ppm(&ppm_bytes(&gray)).unwrap();
    assert_eq!(back.pixels, vec![7, 7, 7, 9, 9, 9]);
    assert_eq!(back.color, ColorType::RGB8);
}

#[test]
fn ppm_errors() {
    assert_eq!(ppm_err(b""), "missing PPM magic");
    assert_eq!(ppm_err(b"  # only a comment"), "missing PPM magic");
    assert_eq!(ppm_err(b"P3 1 1 255\n"), "only binary P6 PPM is supported");
    assert_eq!(ppm_err(b"P6\n"), "missing PPM width");
    assert_eq!(ppm_err(b"P6 1"), "missing PPM height");
    assert_eq!(ppm_err(b"P6 1 1"), "missing PPM max value");
    assert_eq!(ppm_err(b"P6 -1 1 255\n"), "invalid PPM width: -1");
    assert_eq!(ppm_err(b"P6 1 x2 255\n"), "invalid PPM height: x2");
    assert_eq!(ppm_err(b"P6 1 1 65535\n"), "only PPM max value 255 is supported");
    assert_eq!(ppm_err(b"P6 1 1 255"), "missing whitespace before PPM pixels");
    assert_eq!(ppm_err(b"P6 1 1 255\n\x01\x02"), "PPM pixel length mismatch: expected 3, got 2");
    assert_eq!(ppm_err(b"P6 0 1 255\n"), "dimensions must be non-zero and <= 65535");
    assert_eq!(ppm_err(b"P6 4294967295 4294967295 255\n"), "PPM size overflow");
    let err = parse_ppm(b"P6 \xFF1 1 255\n").unwrap_err();
    match &err {
        PpmError::InvalidField(PpmField::Width, raw) => assert_eq!(raw, &vec![0xFF, b'1']),
        other => panic!("unexpected error: {}", other.to_string()),
    }
    assert_eq!(err.to_string(), "invalid PPM width: \u{FFFD}1");
}

#[test]
fn number_tokens() {
    assert_eq!(parse_u32(b"+5"), Some(5));
    assert_eq!(parse_u32(b"007"), Some(7));
    assert_eq!(parse_u32(b"4294967295"), Some(u32::MAX));
    assert_eq!(parse_u32(b"4294967296"), None);
    assert_eq!(parse_u32(b"99999999999x"), None);
    assert_eq!(parse_u32(b"+"), None);
    assert_eq!(parse_u32(b"-0"), None);
    assert_eq!(parse_u32(b""), None);
    let data = b"  a#b\n#c\r\n bc d";
    let mut pos = 0usize;
    assert_eq!(token(data, &mut pos), Some(b"a#b".to_vec()));
    assert_eq!(pos, 5);
    assert_eq!(token(data, &mut pos), Some(b"bc".to_vec()));
    assert_eq!(token(data, &mut pos), Some(b"d".to_vec()));
    assert_eq!(token(data, &mut pos), None);
    assert_eq!(pos, data.len());
}

#[test]
fn demo_image() {
    let img = demo(32, 16).unwrap();
    assert_eq!(img.pixels.len(), 32 * 16 * 3);
    assert_eq!(&img.pixels[..3], &[0, 0, 32]);
    let at = |x: usize, y: usize| &img.pixels[(y * 32 + x) * 3..(y * 32 + x) * 3 + 3];
    assert_eq!(at(16, 0), &[127, 0, 220]);
    assert_eq!(at(31, 15), &[247, 239, 220]);
    assert_eq!(at(16, 15), &[127, 239, 220]);
    assert_eq!(demo(0, 5).unwrap_err().to_string(), "demo dimensions must be non-zero");
    assert_eq!(
        demo(70_000, 1_000).unwrap_err().to_string(),
        "demo dimensions exceed pixel limit: 70000000"
    );
    match demo(70_000, 1).unwrap_err() {
        PpmError::Image(e) => assert_eq!(e.kind, ErrorKind::BadDimensions),
        other => panic!("unexpected error: {}", other.to_string()),
    }
}

#[test]
fn sample_images() {
    assert_eq!(solid(2, 1).unwrap().pixels, vec![10, 20, 30, 10, 20, 30]);
    assert_eq!(flat2(3, 1).unwrap().pixels, vec![10, 20, 30, 40, 50, 60, 10, 20, 30]);
    assert_eq!(stripes(1, 2).unwrap().pixels, vec![220, 220, 220, 20, 20, 20]);
    assert_eq!(
        gradient(2, 2).unwrap().pixels,
        vec![0, 0, 0, 127, 0, 1, 0, 127, 1, 127, 127, 0]
    );
    assert_eq!(solid(0, 3).unwrap_err().kind, ErrorKind::BadDimensions);
}
