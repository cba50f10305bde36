use std::io::Cursor;

use dropmutt_site::error::DropmuttError;
use dropmutt_site::image_processor::{
    get_filename, get_format, image_path, process_image, ImageFormat,
};

fn png_bytes(width: u32, height: u32) -> Vec<u8> {
    let img = image::DynamicImage::ImageRgba8(image::RgbaImage::new(width, height));
    let mut buf = Cursor::new(Vec::new());
    img.write_to(&mut buf, image::ImageFormat::Png).unwrap();
    buf.into_inner()
}

#[test]
fn format_is_sniffed_from_extension() {
    assert_eq!(get_format("bmp").unwrap(), ImageFormat::Bmp);
    assert_eq!(get_format("gif").unwrap(), ImageFormat::Gif);
    assert_eq!(get_format("jpg").unwrap(), ImageFormat::Jpeg);
    assert_eq!(get_format("jpeg").unwrap(), ImageFormat::Jpeg);
    assert_eq!(get_format("jpe").unwrap(), ImageFormat::Jpeg);
    assert_eq!(get_format("png").unwrap(), ImageFormat::Png);
    assert_eq!(get_format("txt").unwrap_err(), DropmuttError::ImageProcessing);
    assert_eq!(get_format("").unwrap_err(), DropmuttError::ImageProcessing);
}

#[test]
fn filename_stem_comes_from_base_name() {
    assert_eq!(get_filename("uploads/000/cat.png").unwrap(), "cat");
    assert_eq!(get_filename("cat.tar.png").unwrap(), "cat.tar");
    assert_eq!(
        get_filename("uploads/noext").unwrap_err(),
        DropmuttError::ImageProcessing
    );
    assert_eq!(
        get_filename("uploads/.png").unwrap_err(),
        DropmuttError::ImageProcessing
    );
}

#[test]
fn derivative_paths_follow_the_naming_scheme() {
    assert_eq!(image_path("cat", "200", "a/b", false), "a/b/cat-200-thumb.png");
    assert_eq!(image_path("cat", "full", "a/b", true), "a/b/cat-full.png");
    assert_eq!(image_path("cat", "400", "", false), "cat-400-thumb.png");
}

#[test]
fn small_image_gets_one_thumbnail_plus_full() {
    let bytes = png_bytes(300, 200);
    let resp = process_image(&bytes, "uploads/000/000/000/abcdefghij.png").unwrap();
    assert_eq!(resp.original_width, 300);
    assert_eq!(resp.original_height, 200);
    assert_eq!(resp.files.len(), 2);
    assert_eq!(resp.files[0].path, "uploads/000/000/000/abcdefghij-200-thumb.png");
    assert_eq!(resp.files[1].path, "uploads/000/000/000/abcdefghij-full.png");
    assert_eq!(resp.files[1].width, 300);
    assert_eq!(resp.files[1].height, 200);
    // The recorded thumbnail size is the resized image's real size.
    assert_eq!(resp.files[0].width, 200);
    let thumb = image::load_from_memory(&resp.files[0].data).unwrap();
    assert_eq!(thumb.width(), 200);
    let full = image::load_from_memory(&resp.files[1].data).unwrap();
    assert_eq!(full.width(), 300);
    assert_eq!(full.height(), 200);
}

#[test]
fn large_image_gets_the_whole_ladder_ascending() {
    let bytes = png_bytes(1500, 1000);
    let resp = process_image(&bytes, "big.png").unwrap();
    assert_eq!(resp.files.len(), 5);
    assert_eq!(resp.files[0].path, "big-200-thumb.png");
    assert_eq!(resp.files[1].path, "big-400-thumb.png");
    assert_eq!(resp.files[2].path, "big-800-thumb.png");
    assert_eq!(resp.files[3].path, "big-1200-thumb.png");
    assert_eq!(resp.files[4].path, "big-full.png");
    let widths: Vec<i32> = resp.files.iter().map(|f| f.width).collect();
    assert_eq!(widths, vec![200, 400, 800, 1200, 1500]);
    for pair in widths.windows(2) {
        assert!(pair[0] < pair[1]);
    }
}

#[test]
fn exact_threshold_width_is_not_exceeded() {
    // A 200-wide source exceeds no threshold: only the full re-encode.
    let bytes = png_bytes(200, 50);
    let resp = process_image(&bytes, "edge.png").unwrap();
    assert_eq!(resp.files.len(), 1);
    assert_eq!(resp.files[0].path, "edge-full.png");
}

#[test]
fn unrecognized_extension_fails_without_derivatives() {
    let bytes = png_bytes(300, 200);
    match process_image(&bytes, "uploads/cat.txt") {
        Err(e) => assert_eq!(e, DropmuttError::ImageProcessing),
        Ok(_) => panic!("expected the pipeline to reject the extension"),
    }
}

#[test]
fn undecodable_data_fails() {
    let junk = vec![0u8; 64];
    match process_image(&junk, "cat.png") {
        Err(e) => assert_eq!(e, DropmuttError::ImageProcessing),
        Ok(_) => panic!("expected the decode to fail"),
    }
}
