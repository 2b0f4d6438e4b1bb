use agent_manager::picture::prompt_image;
use image::{DynamicImage, ImageFormat, RgbImage, RgbaImage};
use std::io::Cursor;

fn encoded(image: DynamicImage, format: ImageFormat) -> Vec<u8> {
    let mut out = Cursor::new(Vec::new());
    image.write_to(&mut out, format).unwrap();
    out.into_inner()
}

#[test]
fn a_file_becomes_its_pixels() {
    let rgba = vec![1, 2, 3, 4, 250, 251, 252, 253];
    let image = RgbaImage::from_raw(2, 1, rgba.clone()).unwrap();
    let picture = prompt_image(&encoded(image.into(), ImageFormat::Png)).unwrap();
    assert_eq!((picture.width, picture.height), (2, 1));
    assert_eq!(picture.rgba, rgba);
}

#[test]
fn pixels_without_opacity_are_opaque() {
    let image = RgbImage::from_raw(1, 2, vec![9, 8, 7, 6, 5, 4]).unwrap();
    let picture = prompt_image(&encoded(image.into(), ImageFormat::Png)).unwrap();
    assert_eq!((picture.width, picture.height), (1, 2));
    assert_eq!(picture.rgba, vec![9, 8, 7, 255, 6, 5, 4, 255]);
}

#[test]
fn every_pasted_format_is_decoded() {
    for format in [ImageFormat::Png, ImageFormat::Jpeg, ImageFormat::Gif, ImageFormat::WebP] {
        let image = RgbImage::from_pixel(3, 2, image::Rgb([255, 255, 255]));
        let picture = prompt_image(&encoded(image.into(), format)).unwrap();
        assert_eq!((picture.width, picture.height), (3, 2));
        assert_eq!(picture.rgba, vec![255; 24]);
    }
}

#[test]
fn what_is_no_image_has_no_pixels() {
    assert!(prompt_image(&Vec::new()).is_none());
    assert!(prompt_image(&b"plain text".to_vec()).is_none());
    let image = RgbImage::from_pixel(3, 2, image::Rgb([1, 2, 3]));
    let bytes = encoded(image.into(), ImageFormat::Png);
    assert!(prompt_image(&bytes[..20].to_vec()).is_none());
}
