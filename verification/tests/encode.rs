use raytracer::encode::{
    encoded, BIT_DEPTH, COLOR_TYPE, SOURCE_CHROMATICITIES, SOURCE_GAMMA, TRANSPARENCY,
};
use raytracer::renderer::{Renderer, Rgb8};

const SIGNATURE: [u8; 8] = [137, 80, 78, 71, 13, 10, 26, 10];

fn chunk<'a>(file: &'a [u8], name: &[u8; 4]) -> Option<&'a [u8]> {
    let mut at = 8;
    while at + 8 <= file.len() {
        let len = u32::from_be_bytes([file[at], file[at + 1], file[at + 2], file[at + 3]]) as usize;
        if &file[at + 4..at + 8] == name {
            return Some(&file[at + 8..at + 8 + len]);
        }
        at += 12 + len;
    }
    None
}

#[test]
fn test_encode_png_header() {
    let mut r = Renderer::new(2, 1);
    r.putpixel(0, 0, Rgb8 { r: 255, g: 255, b: 255 });
    let file = r.encode_png().unwrap();
    assert_ne!(&file, r.data());
    assert_eq!(&file[..8], &SIGNATURE);
    assert_eq!(chunk(&file, b"IHDR").unwrap(), &[0, 0, 0, 2, 0, 0, 0, 1, 8, 6, 0, 0, 0]);
    assert_eq!((BIT_DEPTH, COLOR_TYPE), (8, 6));
    assert_eq!(chunk(&file, b"gAMA").unwrap(), &SOURCE_GAMMA.to_be_bytes());
    assert_eq!(SOURCE_GAMMA, 45454);
    assert_eq!(chunk(&file, b"tRNS").unwrap(), &TRANSPARENCY);
    let chroma: Vec<u8> = SOURCE_CHROMATICITIES.iter().flat_map(|c| c.to_be_bytes()).collect();
    assert_eq!(chunk(&file, b"cHRM").unwrap(), &chroma[..]);
    assert!(chunk(&file, b"IDAT").is_some());
    assert_eq!(chunk(&file, b"IEND").unwrap().len(), 0);
}

#[test]
fn test_encode_png_depends_on_pixels_alone() {
    let mut a = Renderer::new(2, 2);
    let mut b = Renderer::new(2, 2);
    a.putpixel(1, 0, Rgb8 { r: 10, g: 20, b: 30 });
    b.putpixel(1, 0, Rgb8 { r: 10, g: 20, b: 30 });
    assert_eq!(a.encode_png().unwrap(), b.encode_png().unwrap());
    b.putpixel(0, 1, Rgb8 { r: 255, g: 0, b: 128 });
    assert_ne!(a.encode_png().unwrap(), b.encode_png().unwrap());
}

#[test]
fn test_encode_png_of_any_image_with_pixels_succeeds() {
    for (w, h) in [(1, 1), (1, 7), (7, 1), (16, 16), (33, 5)] {
        let mut r = Renderer::new(w, h);
        r.putpixel(w - 1, h - 1, Rgb8 { r: 1, g: 2, b: 3 });
        let file = r.encode_png().unwrap();
        assert_eq!(&file[..8], &SIGNATURE);
        let header = chunk(&file, b"IHDR").unwrap();
        assert_eq!(&header[..4], &w.to_be_bytes());
        assert_eq!(&header[4..8], &h.to_be_bytes());
    }
}

#[test]
fn test_encode_png_without_pixels_fails() {
    let e = Renderer::new(0, 3).encode_png().unwrap_err();
    assert!(!e.message.is_empty());
    assert!(Renderer::new(3, 0).encode_png().is_err());
}

#[test]
fn test_encoded_keeps_file_and_describes_error() {
    assert_eq!(encoded(Ok(vec![1, 2, 3])).unwrap(), vec![1, 2, 3]);
    let e = encoded(Err(png::EncodingError::LimitsExceeded)).unwrap_err();
    assert_eq!(e.message, format!("{}", png::EncodingError::LimitsExceeded));
}
