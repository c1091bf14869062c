use lamco_clipboard_core::image::{
    any_to_dib, bmp_to_dib, create_dib_from_image, dib_dimensions, dib_to_bmp, dib_to_png, parse_dib_to_image,
    png_to_dib, PixelImage, PixelLayout,
};
use lamco_clipboard_core::ClipboardError;

fn solid(w: u32, h: u32, px: [u8; 4]) -> PixelImage {
    let mut pixels = Vec::new();
    for _ in 0..(w * h) {
        pixels.extend_from_slice(&px);
    }
    PixelImage { width: w, height: h, layout: PixelLayout::Rgba8, pixels }
}

#[test]
fn test_create_and_parse_dib() {
    let image = solid(10, 10, [255, 0, 0, 255]);
    let dib = create_dib_from_image(&image);
    assert!(dib.len() >= 40);
    assert_eq!(u32::from_le_bytes([dib[0], dib[1], dib[2], dib[3]]), 40);
    let parsed = parse_dib_to_image(&dib).unwrap();
    assert_eq!(parsed.width, 10);
    assert_eq!(parsed.height, 10);
}

#[test]
fn test_dib_dimensions() {
    let image = solid(100, 50, [0, 0, 0, 255]);
    let dib = create_dib_from_image(&image);
    let (width, height) = dib_dimensions(&dib).unwrap();
    assert_eq!(width, 100);
    assert_eq!(height, 50);
}

#[test]
fn test_png_roundtrip() {
    let img = image::RgbaImage::from_pixel(5, 5, image::Rgba([100, 150, 200, 255]));
    let mut png_data = Vec::new();
    image::DynamicImage::ImageRgba8(img)
        .write_to(&mut std::io::Cursor::new(&mut png_data), image::ImageFormat::Png)
        .unwrap();
    let dib = png_to_dib(&png_data).unwrap();
    let png_back = dib_to_png(&dib).unwrap();
    let loaded = image::load_from_memory(&png_back).unwrap();
    assert_eq!(loaded.width(), 5);
    assert_eq!(loaded.height(), 5);
}

#[test]
fn test_bmp_roundtrip() {
    let image = solid(8, 8, [50, 100, 150, 255]);
    let dib = create_dib_from_image(&image);
    let bmp = dib_to_bmp(&dib).unwrap();
    assert_eq!(&bmp[0..2], b"BM");
    let dib_back = bmp_to_dib(&bmp).unwrap();
    assert_eq!(dib, dib_back);
}

#[test]
fn test_invalid_dib() {
    assert!(parse_dib_to_image(&[0; 30]).is_err());
    let mut invalid_dib = vec![0; 50];
    invalid_dib[0] = 10;
    assert!(parse_dib_to_image(&invalid_dib).is_err());
}

#[test]
fn test_invalid_bmp() {
    assert!(bmp_to_dib(&[0; 10]).is_err());
    let mut invalid_bmp = vec![0; 20];
    invalid_bmp[0] = b'X';
    invalid_bmp[1] = b'Y';
    assert!(bmp_to_dib(&invalid_bmp).is_err());
}

#[test]
fn dib_encode_exact_bytes() {
    let image = PixelImage { width: 2, height: 1, layout: PixelLayout::Rgba8, pixels: vec![1, 2, 3, 4, 5, 6, 7, 8] };
    let dib = create_dib_from_image(&image);
    let mut expected = Vec::new();
    expected.extend_from_slice(&40u32.to_le_bytes());
    expected.extend_from_slice(&2i32.to_le_bytes());
    expected.extend_from_slice(&(-1i32).to_le_bytes());
    expected.extend_from_slice(&1u16.to_le_bytes());
    expected.extend_from_slice(&32u16.to_le_bytes());
    expected.extend_from_slice(&0u32.to_le_bytes());
    expected.extend_from_slice(&8u32.to_le_bytes());
    expected.extend_from_slice(&[0u8; 16]);
    expected.extend_from_slice(&[3, 2, 1, 4, 7, 6, 5, 8]);
    assert_eq!(dib, expected);
    let back = parse_dib_to_image(&dib).unwrap();
    assert_eq!(back.layout, PixelLayout::Rgba8);
    assert_eq!(back.pixels, image.pixels);
}

#[test]
fn dib_round_trip_is_lossless() {
    let mut pixels = Vec::new();
    for i in 0..(7 * 3 * 4) {
        pixels.push((i * 37 % 256) as u8);
    }
    let image = PixelImage { width: 7, height: 3, layout: PixelLayout::Rgba8, pixels };
    let back = parse_dib_to_image(&create_dib_from_image(&image)).unwrap();
    assert_eq!((back.width, back.height, back.layout), (7, 3, PixelLayout::Rgba8));
    assert_eq!(back.pixels, image.pixels);
}

#[test]
fn dib_24bit_bottom_up_with_padding() {
    let mut dib = vec![0u8; 40];
    dib[0] = 40;
    dib[4..8].copy_from_slice(&1i32.to_le_bytes());
    dib[8..12].copy_from_slice(&2i32.to_le_bytes());
    dib[14..16].copy_from_slice(&24u16.to_le_bytes());
    dib.extend_from_slice(&[10, 20, 30, 0, 40, 50, 60, 0]);
    let img = parse_dib_to_image(&dib).unwrap();
    assert_eq!(img.layout, PixelLayout::Rgb8);
    assert_eq!(img.pixels, vec![60, 50, 40, 30, 20, 10]);
    let again = create_dib_from_image(&img);
    assert_eq!(&again[40..], &[40, 50, 60, 255, 10, 20, 30, 255]);
}

#[test]
fn dib_errors() {
    let mut dib = vec![0u8; 44];
    dib[0] = 40;
    dib[4] = 1;
    dib[8] = 1;
    dib[14] = 16;
    assert!(matches!(parse_dib_to_image(&dib), Err(ClipboardError::ImageDecode(_))));
    dib[14] = 32;
    dib[4] = 2;
    assert!(matches!(parse_dib_to_image(&dib), Err(ClipboardError::ImageDecode(_))));
    let mut big = vec![0u8; 40];
    big[0] = 40;
    assert!(matches!(parse_dib_to_image(&big), Err(ClipboardError::ImageDecode(_))));
    assert!(matches!(dib_dimensions(&[0; 11]), Err(ClipboardError::ImageDecode(_))));
    assert!(matches!(dib_to_bmp(&[0; 39]), Err(ClipboardError::ImageDecode(_))));
    assert!(matches!(png_to_dib(b"not a png"), Err(ClipboardError::ImageDecode(_))));
    assert!(matches!(any_to_dib(b"??"), Err(ClipboardError::ImageDecode(_))));
}

#[test]
fn dib_dimensions_of_negative_height() {
    let mut dib = vec![0u8; 12];
    dib[4..8].copy_from_slice(&(-3i32).to_le_bytes());
    dib[8..12].copy_from_slice(&(-4i32).to_le_bytes());
    assert_eq!(dib_dimensions(&dib).unwrap(), (3, 4));
}

#[test]
fn bmp_header_layout() {
    let image = solid(1, 1, [1, 2, 3, 4]);
    let dib = create_dib_from_image(&image);
    let bmp = dib_to_bmp(&dib).unwrap();
    assert_eq!(&bmp[2..6], &(14 + 44u32).to_le_bytes());
    assert_eq!(&bmp[6..10], &[0, 0, 0, 0]);
    assert_eq!(&bmp[10..14], &54u32.to_le_bytes());
    assert_eq!(&bmp[14..], &dib[..]);
}

#[test]
fn png_decodes_to_expected_pixels() {
    let img = image::RgbaImage::from_pixel(2, 1, image::Rgba([9, 8, 7, 255]));
    let mut png_data = Vec::new();
    image::DynamicImage::ImageRgba8(img)
        .write_to(&mut std::io::Cursor::new(&mut png_data), image::ImageFormat::Png)
        .unwrap();
    let dib = png_to_dib(&png_data).unwrap();
    assert_eq!(&dib[40..], &[7, 8, 9, 255, 7, 8, 9, 255]);
    assert_eq!(any_to_dib(&png_data).unwrap(), dib);
}
