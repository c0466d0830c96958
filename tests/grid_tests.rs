use wallpaper_explorer::wallpaper::{Timestamp, Wallpaper};
use wallpaper_explorer::wallpaper_grid::{Direction, WallpaperGrid};

fn create_test_wallpaper(id: &str, filename: &str) -> Wallpaper {
    Wallpaper {
        id: id.to_string(),
        path: filename.to_string(),
        filename: filename.to_string(),
        size: (1920, 1080),
        file_size: 1024,
        format: "jpg".to_string(),
        thumbnail_path: None,
        created_at: Timestamp::new(0, 0),
        modified_at: Timestamp::new(0, 0),
        tags: Vec::new(),
    }
}

fn sized(filename: &str, width: u32, height: u32) -> Wallpaper {
    let mut w = create_test_wallpaper(filename, filename);
    w.size = (width, height);
    w
}

fn names(grid: &WallpaperGrid) -> Vec<&str> {
    grid.get_wallpapers().iter().map(|w| w.filename.as_str()).collect()
}

#[test]
fn test_wallpaper_grid_basic() {
    let mut grid: WallpaperGrid = WallpaperGrid::new(3);
    assert_eq!(grid.get_columns(), 3);
    assert_eq!(grid.get_rows(), 0);

    let wallpapers: Vec<Wallpaper> = vec![
        create_test_wallpaper("1", "test1.jpg"),
        create_test_wallpaper("2", "test2.jpg"),
        create_test_wallpaper("3", "test3.jpg"),
        create_test_wallpaper("4", "test4.jpg"),
    ];

    grid.set_wallpapers(wallpapers);
    assert_eq!(grid.get_wallpapers().len(), 4);
    assert_eq!(grid.get_rows(), 2);
}

#[test]
fn test_selection() {
    let mut grid: WallpaperGrid = WallpaperGrid::new(2);
    let wallpapers: Vec<Wallpaper> = vec![
        create_test_wallpaper("1", "test1.jpg"),
        create_test_wallpaper("2", "test2.jpg"),
    ];

    grid.set_wallpapers(wallpapers);

    assert!(grid.select_wallpaper(0).is_some());
    assert_eq!(grid.get_selected_index(), Some(0));

    assert!(grid.select_wallpaper(5).is_none());
    assert_eq!(grid.get_selected_index(), Some(0));
}

#[test]
fn rows_round_up() {
    let mut grid = WallpaperGrid::new(3);
    let v: Vec<Wallpaper> = (0..7).map(|i| create_test_wallpaper("x", &format!("{i}.jpg"))).collect();
    grid.set_wallpapers(v);
    assert_eq!(grid.get_rows(), 3);
    grid.set_columns(7);
    assert_eq!(grid.get_rows(), 1);
    grid.set_columns(0);
    assert_eq!(grid.get_columns(), 1);
    assert_eq!(grid.get_rows(), 7);
}

#[test]
fn arrow_moves_stay_in_range() {
    let mut grid = WallpaperGrid::new(3);
    assert!(grid.move_selection(Direction::Right).is_none());
    let v: Vec<Wallpaper> = (0..5).map(|i| create_test_wallpaper("x", &format!("{i}.jpg"))).collect();
    grid.set_wallpapers(v);
    assert_eq!(grid.move_selection(Direction::Right).map(|w| w.filename.clone()), Some("1.jpg".to_string()));
    assert_eq!(grid.get_selected_index(), Some(1));
    assert_eq!(grid.move_selection(Direction::Down).map(|w| w.filename.clone()), Some("4.jpg".to_string()));
    assert_eq!(grid.move_selection(Direction::Down).map(|w| w.filename.clone()), Some("4.jpg".to_string()));
    assert_eq!(grid.get_selected_index(), Some(4));
    assert_eq!(grid.move_selection(Direction::Up).map(|w| w.filename.clone()), Some("1.jpg".to_string()));
    assert_eq!(grid.move_selection(Direction::Left).map(|w| w.filename.clone()), Some("0.jpg".to_string()));
    assert_eq!(grid.move_selection(Direction::Left).map(|w| w.filename.clone()), Some("0.jpg".to_string()));
    grid.clear_selection();
    assert!(grid.move_selection(Direction::Up).is_none());
    assert_eq!(grid.get_selected_index(), None);
    assert!(grid.get_selected_wallpaper().is_none());
}

#[test]
fn sorting_orders_and_clears_selection() {
    let mut grid = WallpaperGrid::new(2);
    grid.set_wallpapers(vec![sized("b.jpg", 10, 10), sized("a.jpg", 30, 30), sized("c.jpg", 20, 20), sized("d.jpg", 10, 10)]);
    grid.select_wallpaper(1);
    grid.sort_by_size(true);
    assert_eq!(names(&grid), vec!["b.jpg", "d.jpg", "c.jpg", "a.jpg"]);
    assert_eq!(grid.get_selected_index(), None);
    grid.sort_by_size(false);
    assert_eq!(names(&grid), vec!["a.jpg", "c.jpg", "b.jpg", "d.jpg"]);
    grid.sort_by_name(true);
    assert_eq!(names(&grid), vec!["a.jpg", "b.jpg", "c.jpg", "d.jpg"]);
    grid.sort_by_name(false);
    assert_eq!(names(&grid), vec!["d.jpg", "c.jpg", "b.jpg", "a.jpg"]);
}
