use image::GenericImageView;
use imagetor::codec::{to_image, to_image_buffer, to_tensor};
use imagetor::finder::{ImageFinder, ImageFinderError};
use imagetor::fit::fit_center;
use imagetor::tensor::CHANNEL_STEP;

fn rgba_image(width: u32, height: u32, bytes: Vec<u8>) -> image::DynamicImage {
    image::DynamicImage::ImageRgba8(image::RgbaImage::from_raw(width, height, bytes).unwrap())
}

#[test]
fn tensor_conversion_scales_bytes() {
    let bytes: Vec<u8> = vec![
        1, 2, 3, 4, 250, 251, 252, 253, //
        0, 128, 255, 7, 9, 8, 7, 6,
    ];
    let tensor = to_tensor(rgba_image(2, 2, bytes.clone()));
    assert_eq!(tensor.len(), 2);
    assert_eq!(tensor[0].len(), 2);
    for y in 0..2 {
        for x in 0..2 {
            for c in 0..4 {
                let byte = bytes[(y * 2 + x) * 4 + c] as u64;
                assert_eq!(tensor[y][x][c], byte * CHANNEL_STEP);
            }
        }
    }
}

#[test]
fn image_round_trip_is_exact() {
    let bytes: Vec<u8> = vec![
        10, 20, 30, 40, 50, 60, 70, 80, //
        90, 100, 110, 120, 130, 140, 150, 160,
    ];
    let tensor = to_tensor(rgba_image(2, 2, bytes.clone()));
    let back = to_image(tensor);
    assert_eq!(back.dimensions(), (2, 2));
    for y in 0..2u32 {
        for x in 0..2u32 {
            let p = back.get_pixel(x, y).0;
            for c in 0..4 {
                assert_eq!(p[c], bytes[((y * 2 + x) * 4) as usize + c]);
            }
        }
    }
}

#[test]
fn image_buffer_truncates_and_saturates() {
    // one step below 2/255 truncates down; huge values saturate at byte 255
    let tensor = vec![vec![vec![511u64, 256, 65280, 4294967295]]];
    let buffer = to_image_buffer(tensor);
    assert_eq!(buffer, vec![1u8, 1, 255, 255]);
}

#[test]
fn fit_center_shrinks_to_target() {
    let source = rgba_image(400, 300, vec![127u8; 400 * 300 * 4]);
    let target = rgba_image(100, 100, vec![0u8; 100 * 100 * 4]);
    let fitted = fit_center(&source, &target);
    assert_eq!(fitted.dimensions(), (100, 75));
}

#[test]
fn fit_center_keeps_small_source() {
    let source = rgba_image(10, 20, vec![9u8; 10 * 20 * 4]);
    let target = rgba_image(50, 50, vec![0u8; 50 * 50 * 4]);
    let fitted = fit_center(&source, &target);
    assert_eq!(fitted.dimensions(), (10, 20));
}

#[test]
fn finder_keeps_only_files() {
    let mut finder = ImageFinder::new(String::from("images"));
    let entries = vec![
        (String::from("images/a.jpg"), true),
        (String::from("images/nested"), false),
        (String::from("images/b.png"), true),
    ];
    finder.image_path_finding(&entries);
    let paths = finder.get_paths();
    assert_eq!(paths.len(), 2);
    assert_eq!(paths[0], "images/a.jpg");
    assert_eq!(paths[1], "images/b.png");
}

#[test]
fn finder_starts_empty() {
    let finder = ImageFinder::new(String::from("images"));
    assert!(finder.get_paths().is_empty());
}

#[test]
fn finder_error_carries_message() {
    let e = ImageFinderError::IOError(String::from("directory not found"));
    let ImageFinderError::IOError(msg) = e;
    assert_eq!(msg, "directory not found");
}
