use std::collections::HashSet;

use dropmutt_site::path_generator::{extension_for_mime, relative_path_for, PathGenerator};

#[test]
fn generates_correct_paths() {
    let mut image_path = PathGenerator::new("/tmp", 0);

    assert!(image_path.next_path("png").starts_with("000/000/000"));

    for _ in 0..999 {
        image_path.next_path("png");
    }

    assert!(image_path.next_path("png").starts_with("000/001/000"));

    for _ in 0..499 {
        image_path.next_path("png");
    }

    assert!(image_path.next_path("png").starts_with("000/001/500"));

    for _ in 0..499 {
        image_path.next_path("png");
    }

    assert!(image_path.next_path("png").starts_with("000/002/000"));

    for _ in 0..(1_000_000 - 2_001) {
        image_path.next_path("png");
    }

    assert!(image_path.next_path("png").starts_with("001/000/000"));
}

#[test]
fn first_two_segments_step_per_thousand() {
    let mut gen = PathGenerator::new("uploads", 0);
    for call in 0..3000u32 {
        let p = gen.next_path("png");
        let expected = match call / 1000 {
            0 => "000/000",
            1 => "000/001",
            _ => "000/002",
        };
        assert_eq!(&p[..7], expected);
    }
}

#[test]
fn paths_have_shard_shape_and_random_stem() {
    let mut gen = PathGenerator::new("uploads", 41);
    let p = gen.next_path("jpg");
    // 3 shard groups, a slash, a ten-character stem, a dot, the extension.
    assert_eq!(p.len(), 3 + 1 + 3 + 1 + 3 + 1 + 10 + 1 + 3);
    assert_eq!(&p[..12], "000/000/041/");
    let stem = &p[12..22];
    assert!(stem.chars().all(|c| c.is_ascii_alphanumeric()));
    assert_eq!(&p[22..], ".jpg");
}

#[test]
fn sequential_paths_are_distinct() {
    let mut gen = PathGenerator::new("uploads", 0);
    let mut seen: HashSet<String> = HashSet::new();
    for _ in 0..1000 {
        assert!(seen.insert(gen.next_path("png")));
    }
}

#[test]
fn relative_path_for_formats_groups() {
    assert_eq!(relative_path_for(0, "aaaaaaaaaa", "png"), "000/000/000/aaaaaaaaaa.png");
    assert_eq!(relative_path_for(1_002_003, "stemstemst", "gif"), "001/002/003/stemstemst.gif");
    assert_eq!(relative_path_for(999_999_999, "zzzzzzzzzz", "bmp"), "999/999/999/zzzzzzzzzz.bmp");
}

#[test]
fn filenames_come_only_for_image_types() {
    let mut gen = PathGenerator::new("uploads", 7);
    let p = gen.next_filename("image/jpeg").unwrap();
    assert!(p.starts_with("000/000/007/"));
    assert!(p.ends_with(".jpg"));
    assert_eq!(gen.next_path, 8);
    assert!(gen.next_filename("text/plain").is_none());
    assert_eq!(gen.next_path, 8);
    let q = gen.next_filename("image/webp").unwrap();
    assert!(q.ends_with(".png"));
}

#[test]
fn canonical_extensions_per_media_type() {
    assert_eq!(extension_for_mime("image/bmp"), "bmp");
    assert_eq!(extension_for_mime("image/gif"), "gif");
    assert_eq!(extension_for_mime("image/jpeg"), "jpg");
    assert_eq!(extension_for_mime("image/png"), "png");
    assert_eq!(extension_for_mime("image/tiff"), "png");
}

#[test]
fn rooted_joins_root_directory() {
    let gen = PathGenerator::new("uploads", 0);
    assert_eq!(gen.rooted("000/000/000/abc.png"), "uploads/000/000/000/abc.png");
}
