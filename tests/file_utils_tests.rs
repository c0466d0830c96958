use wallpaper_explorer::file_utils::{format_file_size, get_relative_path_display, total_size};

#[test]
fn test_format_file_size() {
    assert_eq!(format_file_size(0), "0 B");
    assert_eq!(format_file_size(512), "512 B");
    assert_eq!(format_file_size(1024), "1.0 KB");
    assert_eq!(format_file_size(1536), "1.5 KB");
    assert_eq!(format_file_size(1048576), "1.0 MB");
}

#[test]
fn file_size_units_and_rounding() {
    assert_eq!(format_file_size(1023), "1023 B");
    assert_eq!(format_file_size(1280), "1.2 KB");
    assert_eq!(format_file_size(1331), "1.3 KB");
    assert_eq!(format_file_size(1048575), "1024.0 KB");
    assert_eq!(format_file_size(1073741824), "1.0 GB");
    assert_eq!(format_file_size(1099511627776 * 3 / 2), "1.5 TB");
    assert_eq!(format_file_size(1099511627776 * 2048), "2048.0 TB");
}

#[test]
fn relative_path_under_base() {
    assert_eq!(get_relative_path_display("/pics/a/b.jpg", "/pics"), "a/b.jpg");
    assert_eq!(get_relative_path_display("/other/b.jpg", "/pics"), "/other/b.jpg");
}

#[test]
fn total_size_sums_and_saturates() {
    assert_eq!(total_size(&vec![]), 0);
    assert_eq!(total_size(&vec![1, 2, 3]), 6);
    assert_eq!(total_size(&vec![u64::MAX, 5]), u64::MAX);
}
