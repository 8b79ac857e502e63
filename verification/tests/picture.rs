use hammond_b3::picture::{decode_picture, rgba_picture};

fn jpeg(width: u32, height: u32) -> Vec<u8> {
    let rgb = image::RgbImage::from_pixel(width, height, image::Rgb([200, 100, 50]));
    let mut out = std::io::Cursor::new(Vec::new());
    image::DynamicImage::ImageRgb8(rgb)
        .write_to(&mut out, image::ImageFormat::Jpeg)
        .expect("encode");
    out.into_inner()
}

#[test]
fn decodes_a_jpeg_into_rgba() {
    let bytes = jpeg(3, 2);
    let pic = decode_picture(&bytes).expect("decodes");
    assert_eq!(pic.size, [3, 2]);
    assert_eq!(pic.pixels.len(), 24);
    // Opaque: the alpha byte of every pixel is 255.
    assert!(pic.pixels.chunks(4).all(|p| p[3] == 255));
}

#[test]
fn garbage_is_not_a_picture() {
    assert!(decode_picture(b"not a picture at all").is_none());
    assert!(decode_picture(&[]).is_none());
}

#[test]
fn rgba_picture_checks_the_byte_count() {
    let pic = rgba_picture(Some((2, 2, vec![7; 16]))).expect("four bytes per pixel");
    assert_eq!(pic.size, [2, 2]);
    assert_eq!(pic.pixels, vec![7; 16]);
    assert!(rgba_picture(Some((2, 2, vec![0; 15]))).is_none());
    assert!(rgba_picture(Some((2, 2, vec![0; 17]))).is_none());
    assert!(rgba_picture(None).is_none());
    assert!(rgba_picture(Some((u32::MAX, u32::MAX, Vec::new()))).is_none());
    let empty = rgba_picture(Some((0, 5, Vec::new()))).expect("empty picture");
    assert_eq!(empty.size, [0, 5]);
}
