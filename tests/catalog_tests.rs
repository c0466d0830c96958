use wallpaper_explorer::config::Config;
use wallpaper_explorer::error::{Result, WallpaperError};
use wallpaper_explorer::thumbnail_service::{ThumbnailPlan, ThumbnailService};
use wallpaper_explorer::wallpaper::{Timestamp, Wallpaper};
use wallpaper_explorer::wallpaper_service::{DirEntry, FileFacts, RootScan, WallpaperService};

fn test_config() -> Config {
    Config {
        wallpaper_directories: vec!["/pics".to_string(), "/missing".to_string(), "/empty".to_string()],
        supported_formats: vec!["jpg".to_string(), "png".to_string()],
        thumbnail_size: (200, 150),
        cache_directory: "/cache".to_string(),
        max_cache_size_mb: 500,
    }
}

fn default_config() -> Config {
    Config::with_directories(
        dirs::picture_dir().map(|p| p.to_string_lossy().into_owned()),
        dirs::cache_dir().map(|p| p.to_string_lossy().into_owned()),
    )
}

fn record(path: &str, width: u32, height: u32, format: &str) -> Wallpaper {
    let t = Timestamp::new(1_700_000_000, 0);
    let w = Wallpaper::new(path.to_string(), 1000, t, t).with_dimensions(width, height);
    assert_eq!(w.format, format);
    w
}

#[test]
fn test_app_creation() -> Result<()> {
    Ok(())
}

#[test]
fn test_config_loading() -> Result<()> {
    let config: Config = default_config();
    assert!(!config.supported_formats.is_empty());
    assert!(config.thumbnail_size.0 > 0);
    assert!(config.thumbnail_size.1 > 0);
    Ok(())
}

#[test]
fn default_config_values() {
    let config = default_config();
    assert_eq!(config.supported_formats, vec!["jpg", "jpeg", "png", "bmp", "gif", "webp"]);
    assert_eq!(config.thumbnail_size, (200, 150));
    assert_eq!(config.max_cache_size_mb, 500);
    assert_eq!(config.wallpaper_directories.len(), 1);
    assert!(config.cache_directory.ends_with("wallpaper-explorer"));
}

#[test]
fn configured_formats_ignore_case() {
    let config = test_config();
    assert!(config.is_supported_format("/pics/a.JPG"));
    assert!(config.is_supported_format("/pics/a.Png"));
    assert!(!config.is_supported_format("/pics/a.gif"));
    assert!(!config.is_supported_format("/pics/README"));
}

#[test]
fn new_record_from_path() {
    let t = Timestamp::new(5, 6);
    let w = Wallpaper::new("/pics/sub/Sunset.JPG".to_string(), 42, t, t);
    assert_eq!(w.filename, "Sunset.JPG");
    assert_eq!(w.format, "jpg");
    assert_eq!(w.size, (0, 0));
    assert_eq!(w.file_size, 42);
    assert!(w.thumbnail_path.is_none());
    assert!(w.tags.is_empty());
    assert!(!w.id.is_empty() && w.id.chars().all(|c| c.is_ascii_hexdigit()));
    let again = Wallpaper::new("/pics/sub/Sunset.JPG".to_string(), 1, t, t);
    assert_eq!(w.id, again.id);
    let other = Wallpaper::new("/pics/sub/Other.JPG".to_string(), 1, t, t);
    assert_ne!(w.id, other.id);
    let bare = Wallpaper::new("/".to_string(), 1, t, t);
    assert_eq!(bare.filename, "unknown");
    assert_eq!(bare.format, "unknown");
}

#[test]
fn tags_are_a_set_in_insertion_order() {
    let mut w = record("/pics/a.jpg", 1, 1, "jpg");
    w.add_tag("nature".to_string());
    w.add_tag("blue".to_string());
    w.add_tag("nature".to_string());
    assert_eq!(w.tags, vec!["nature", "blue"]);
    w.remove_tag("nature");
    assert_eq!(w.tags, vec!["blue"]);
    w.remove_tag("absent");
    assert_eq!(w.tags, vec!["blue"]);
}

#[test]
fn thumbnail_path_is_per_source() {
    let service = ThumbnailService::new(&test_config());
    let a = service.get_thumbnail_path("/pics/a.jpg");
    let b = service.get_thumbnail_path("/pics/b.jpg");
    assert_eq!(a, service.get_thumbnail_path("/pics/a.jpg"));
    assert_ne!(a, b);
    assert!(a.starts_with("/cache/thumbnails/"));
    assert!(a.ends_with(".jpg"));
    assert_eq!(service.thumbnail_size(), (200, 150));
    assert_eq!(service.calculate_thumbnail_size(1920, 1080), (200, 112));
}

#[test]
fn second_resolution_reuses_artifact() {
    let service = ThumbnailService::new(&test_config());
    let source = Timestamp::new(100, 0);
    let first = service.plan_thumbnail("/pics/a.jpg", None, source);
    let first_path = match first {
        ThumbnailPlan::Regenerate(p) => p,
        ThumbnailPlan::Reuse(_) => panic!("missing artifact must be generated"),
    };
    let written = Timestamp::new(200, 0);
    match service.plan_thumbnail("/pics/a.jpg", Some(written), source) {
        ThumbnailPlan::Reuse(p) => assert_eq!(p, first_path),
        ThumbnailPlan::Regenerate(_) => panic!("fresh artifact must be reused"),
    }
    let same_time = Timestamp::new(100, 0);
    assert!(matches!(
        service.plan_thumbnail("/pics/a.jpg", Some(same_time), source),
        ThumbnailPlan::Reuse(_)
    ));
}

#[test]
fn touched_source_regenerates() {
    let service = ThumbnailService::new(&test_config());
    let artifact = Timestamp::new(200, 0);
    let touched = Timestamp::new(200, 1);
    assert!(matches!(
        service.plan_thumbnail("/pics/a.jpg", Some(artifact), touched),
        ThumbnailPlan::Regenerate(_)
    ));
    assert!(!ThumbnailService::is_thumbnail_valid(Some(artifact), touched));
    assert!(ThumbnailService::is_thumbnail_valid(Some(touched), artifact));
}

#[test]
fn scan_of_three_roots() {
    let config = test_config();
    let mut service = WallpaperService::new(&config);
    let entries = vec![
        DirEntry { path: "/pics".to_string(), is_file: false },
        DirEntry { path: "/pics/a.jpg".to_string(), is_file: true },
        DirEntry { path: "/pics/b.PNG".to_string(), is_file: true },
        DirEntry { path: "/pics/notes.txt".to_string(), is_file: true },
        DirEntry { path: "/pics/sub".to_string(), is_file: false },
        DirEntry { path: "/pics/sub/c.png".to_string(), is_file: true },
        DirEntry { path: "/pics/sub/d.JPG".to_string(), is_file: true },
    ];
    let candidates = service.select_candidates(&entries);
    assert_eq!(candidates, vec!["/pics/a.jpg", "/pics/b.PNG", "/pics/sub/c.png", "/pics/sub/d.JPG"]);
    let t = Timestamp::new(1, 0);
    let records: Vec<Wallpaper> = candidates
        .into_iter()
        .map(|p| Wallpaper::new(p, 10, t, t))
        .collect();
    let empty_entries = vec![DirEntry { path: "/empty".to_string(), is_file: false }];
    assert!(service.select_candidates(&empty_entries).is_empty());
    let roots = vec![
        RootScan::Walked { records, error: None },
        RootScan::Missing,
        RootScan::Walked { records: Vec::new(), error: None },
    ];
    let report = service.scan_wallpapers(roots);
    assert_eq!(service.get_wallpapers().len(), 4);
    assert_eq!(report.missing_roots, 1);
    assert!(report.errors.is_empty());
}

#[test]
fn scan_replaces_records_and_reports_cut_walks() {
    let mut service = WallpaperService::new(&test_config());
    let first = vec![RootScan::Walked {
        records: vec![record("/pics/a.jpg", 1, 1, "jpg")],
        error: None,
    }];
    service.scan_wallpapers(first);
    let second = vec![
        RootScan::Walked { records: vec![record("/pics/b.jpg", 1, 1, "jpg")], error: Some("denied".to_string()) },
        RootScan::Walked { records: vec![record("/pics/c.png", 1, 1, "png")], error: None },
    ];
    let report = service.scan_wallpapers(second);
    let names: Vec<&str> = service.get_wallpapers().iter().map(|w| w.filename.as_str()).collect();
    assert_eq!(names, vec!["b.jpg", "c.png"]);
    assert_eq!(report.missing_roots, 0);
    assert_eq!(report.errors.len(), 1);
    assert!(matches!(&report.errors[0], WallpaperError::Service(m) if m == "denied"));
}

#[test]
fn assembled_record_keeps_failed_fields() {
    let base = record("/pics/a.jpg", 0, 0, "jpg");
    let w = WallpaperService::process_wallpaper_file(base, None, Some("/cache/t.jpg".to_string()));
    assert_eq!(w.size, (0, 0));
    assert_eq!(w.thumbnail_path.as_deref(), Some("/cache/t.jpg"));
    let base = record("/pics/b.jpg", 0, 0, "jpg");
    let w = WallpaperService::process_wallpaper_file(base, Some((640, 480)), None);
    assert_eq!(w.size, (640, 480));
    assert!(w.thumbnail_path.is_none());
}

#[test]
fn catalog_queries() {
    let mut service = WallpaperService::new(&test_config());
    let records = vec![
        record("/pics/a.jpg", 1920, 1080, "jpg"),
        record("/pics/b.PNG", 800, 600, "png"),
        record("/pics/c.JPG", 1920, 600, "jpg"),
        record("/pics/d.png", 1920, 1080, "png"),
    ];
    let id_c = records[2].id.clone();
    service.scan_wallpapers(vec![RootScan::Walked { records, error: None }]);
    let big: Vec<&str> = service.filter_by_size(1920, 1080).iter().map(|w| w.filename.as_str()).collect();
    assert_eq!(big, vec!["a.jpg", "d.png"]);
    let wide: Vec<&str> = service.filter_by_size(1000, 0).iter().map(|w| w.filename.as_str()).collect();
    assert_eq!(wide, vec!["a.jpg", "c.JPG", "d.png"]);
    assert_eq!(service.filter_by_size(4000, 1).len(), 0);
    let jpgs: Vec<&str> = service.filter_by_format("JPG").iter().map(|w| w.filename.as_str()).collect();
    assert_eq!(jpgs, vec!["a.jpg", "c.JPG"]);
    assert_eq!(service.filter_by_format("Png").len(), 2);
    assert_eq!(service.filter_by_format("gif").len(), 0);
    assert_eq!(service.get_wallpaper_by_id(&id_c).map(|w| w.filename.as_str()), Some("c.JPG"));
    assert!(service.get_wallpaper_by_id("nope").is_none());
}

#[test]
fn directories_fall_back_to_current() {
    let config = Config::with_directories(None, None);
    assert_eq!(config.wallpaper_directories, vec!["."]);
    assert_eq!(config.cache_directory, "./wallpaper-explorer");
    let config = Config::with_directories(Some("/home/u/Pictures".to_string()), Some("/home/u/.cache".to_string()));
    assert_eq!(config.wallpaper_directories, vec!["/home/u/Pictures"]);
    assert_eq!(config.cache_directory, "/home/u/.cache/wallpaper-explorer");
}

fn facts(size: u64, dims: Option<(u32, u32)>) -> Option<FileFacts> {
    let t = Timestamp::new(7, 0);
    Some(FileFacts { file_size: size, created_at: t, modified_at: t, dimensions: dims, thumbnail: None })
}

#[test]
fn root_records_come_from_supported_files() {
    let service = WallpaperService::new(&test_config());
    let entries = vec![
        DirEntry { path: "/pics".to_string(), is_file: false },
        DirEntry { path: "/pics/a.jpg".to_string(), is_file: true },
        DirEntry { path: "/pics/notes.txt".to_string(), is_file: true },
        DirEntry { path: "/pics/b.PNG".to_string(), is_file: true },
        DirEntry { path: "/pics/c.png".to_string(), is_file: true },
        DirEntry { path: "/pics/d.jpg".to_string(), is_file: true },
        DirEntry { path: "/pics/e.jpg".to_string(), is_file: true },
    ];
    let all = vec![facts(1, Some((10, 20))), facts(2, None), facts(3, None), facts(4, None), None];
    match service.scan_root(&entries, all, None) {
        RootScan::Walked { records, error } => {
            assert!(error.is_none());
            let paths: Vec<&str> = records.iter().map(|w| w.path.as_str()).collect();
            assert_eq!(paths, vec!["/pics/a.jpg", "/pics/b.PNG", "/pics/c.png", "/pics/d.jpg"]);
            assert_eq!(records[0].size, (10, 20));
            assert_eq!(records[1].size, (0, 0));
            assert_eq!(records[3].file_size, 4);
            assert_eq!(records[1].format, "png");
        }
        RootScan::Missing => panic!("a walked root is never missing"),
    }
}
