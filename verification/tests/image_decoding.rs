use balchug::image_decode::{decode_image, decode_image_file, decode_images, image_dimensions, DecodedImage, ImageFile};
use image::{ImageFormat, Rgba, RgbaImage};
use std::io::Cursor;

fn png(width: u32, height: u32) -> Vec<u8> {
    let mut img = RgbaImage::new(width, height);
    for (x, y, p) in img.enumerate_pixels_mut() {
        *p = Rgba([x as u8, y as u8, 7, 255]);
    }
    let mut out = Cursor::new(Vec::new());
    img.write_to(&mut out, ImageFormat::Png).expect("png encodes");
    out.into_inner()
}

#[test]
fn png_decodes_to_rgba() {
    let d = decode_image(&png(3, 2)).expect("a png decodes");
    assert_eq!((d.width, d.height), (3, 2));
    assert_eq!(d.rgba.len(), 3 * 2 * 4);
    assert_eq!(&d.rgba[0..4], &[0, 0, 7, 255]);
    assert_eq!(&d.rgba[(1 * 3 + 2) * 4..(1 * 3 + 2) * 4 + 4], &[2, 1, 7, 255]);
}

#[test]
fn garbage_does_not_decode() {
    assert!(decode_image(&[1, 2, 3, 4]).is_none());
    assert!(decode_image(&[]).is_none());
}

#[test]
fn undecodable_files_are_skipped_in_order() {
    let file = |bytes: Vec<u8>, ext: &str| ImageFile { bytes, extension: ext.to_string() };
    let files = vec![file(png(2, 5), "png"), file(vec![0u8; 10], "png"), file(png(7, 7), "txt"), file(png(4, 1), "PNG")];
    let images = decode_images(&files);
    assert_eq!(images.len(), 2);
    assert_eq!((images[0].width, images[0].height), (2, 5));
    assert_eq!((images[1].width, images[1].height), (4, 1));
    assert_eq!(image_dimensions(&images), vec![(2, 5), (4, 1)]);
}

#[test]
fn dimensions_of_no_images() {
    let none: Vec<DecodedImage> = Vec::new();
    assert!(image_dimensions(&none).is_empty());
}

#[test]
fn file_decoder_follows_the_extension() {
    let bytes = png(3, 3);
    let as_png = ImageFile { bytes: bytes.clone(), extension: "png".to_string() };
    let as_jpeg = ImageFile { bytes: bytes.clone(), extension: "jpg".to_string() };
    let bare = ImageFile { bytes, extension: String::new() };
    assert_eq!(decode_image_file(&as_png).map(|d| (d.width, d.height)), Some((3, 3)));
    assert!(decode_image_file(&as_jpeg).is_none());
    assert!(decode_image_file(&bare).is_none());
}
