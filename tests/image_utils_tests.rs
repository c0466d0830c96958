use wallpaper_explorer::image_utils::{
    calculate_scaled_size, format_from_path, is_landscape, is_portrait, is_square,
    is_supported_image_format, ImageFormat,
};

#[test]
fn test_is_supported_image_format() {
    assert!(is_supported_image_format("test.jpg"));
    assert!(is_supported_image_format("test.PNG"));
    assert!(!is_supported_image_format("test.txt"));
}

#[test]
fn test_calculate_scaled_size() {
    let (w, h) = calculate_scaled_size(1920, 1080, 400, 300);
    assert_eq!((w, h), (400, 225));

    let (w, h) = calculate_scaled_size(800, 1200, 400, 300);
    assert_eq!((w, h), (200, 300));
}

#[test]
fn test_orientation() {
    assert!(is_landscape(1920, 1080));
    assert!(is_portrait(1080, 1920));
    assert!(is_square(1080, 1080));
}

#[test]
fn scaled_size_stays_in_box_and_keeps_ratio() {
    let cases: [(u32, u32, u32, u32); 6] = [
        (1920, 1080, 200, 150),
        (1, 5000, 200, 150),
        (5000, 1, 200, 150),
        (333, 777, 97, 61),
        (10, 10, 200, 150),
        (4000, 3000, 200, 150),
    ];
    for (w, h, mw, mh) in cases {
        let (a, b) = calculate_scaled_size(w, h, mw, mh);
        assert!(a >= 1 && b >= 1 && a <= mw && b <= mh);
        assert!(a == mw || b == mh);
        let (a, b, w, h) = (a as i64, b as i64, w as i64, h as i64);
        assert!((b * w - a * h).abs() < w || (a * h - b * w).abs() < h);
    }
}

#[test]
fn scaled_size_floors_to_one_pixel() {
    assert_eq!(calculate_scaled_size(1, 5000, 200, 150), (1, 150));
    assert_eq!(calculate_scaled_size(5000, 1, 200, 150), (200, 1));
    assert_eq!(calculate_scaled_size(0, 0, 200, 150), (1, 1));
}

#[test]
fn format_follows_extension() {
    assert_eq!(format_from_path("a/b.JPEG"), Some(ImageFormat::Jpeg));
    assert_eq!(format_from_path("b.tif"), Some(ImageFormat::Tiff));
    assert_eq!(format_from_path("b.webp"), Some(ImageFormat::WebP));
    assert_eq!(format_from_path("b.txt"), None);
    assert_eq!(format_from_path("noext"), None);
}

#[test]
fn hidden_file_has_no_extension() {
    assert!(!is_supported_image_format(".png"));
    assert!(is_supported_image_format("dir.d/x.Ico"));
}
