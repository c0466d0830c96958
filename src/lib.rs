//! Wallpaper catalog core: path classification, image geometry, the
//! thumbnail cache rules, directory-scan assembly and the grid model.

pub mod config;
pub mod error;
pub mod file_utils;
pub mod image_utils;
pub mod paths;
pub mod text;
pub mod thumbnail_service;
pub mod wallpaper;
pub mod wallpaper_grid;
pub mod wallpaper_service;
