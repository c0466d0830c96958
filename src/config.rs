//! The settings a scan runs with.

use vstd::prelude::*;
use crate::image_utils::{extension_in, matches_any_format};
use crate::paths::{extension_of, joined_path, opt_view, path_extension, path_join};
use crate::wallpaper::views;

verus! {

/// The extensions recognised by default.
pub open spec fn default_formats() -> Seq<Seq<char>> {
    seq![
        seq!['j', 'p', 'g'],
        seq!['j', 'p', 'e', 'g'],
        seq!['p', 'n', 'g'],
        seq!['b', 'm', 'p'],
        seq!['g', 'i', 'f'],
        seq!['w', 'e', 'b', 'p'],
    ]
}

/// The directory name the application keeps its files under.
pub open spec fn app_dir_name() -> Seq<char> {
    seq!['w', 'a', 'l', 'l', 'p', 'a', 'p', 'e', 'r', '-', 'e', 'x', 'p', 'l', 'o', 'r', 'e', 'r']
}

/// Where to look for wallpapers, which extensions count as images, the
/// thumbnail box, where the cache lives, and the advisory cache cap.
#[derive(Debug)]
pub struct Config {
    pub wallpaper_directories: Vec<String>,
    pub supported_formats: Vec<String>,
    pub thumbnail_size: (u32, u32),
    pub cache_directory: String,
    pub max_cache_size_mb: u64,
}

impl Config {
    /// Whether the path's extension is one of the configured formats, ignoring
    /// ASCII case.
    pub open spec fn accepts(&self, path: Seq<char>) -> bool {
        match extension_of(path) {
            Some(e) => matches_any_format(views(self.supported_formats@), e),
            None => false,
        }
    }

    /// Whether the extension is one of the configured formats, ignoring ASCII case.
    pub fn is_supported_extension(&self, ext: &str) -> (r: bool)
        ensures
            r == matches_any_format(views(self.supported_formats@), ext@),
    {
        extension_in(&self.supported_formats, ext)
    }

    /// Whether the path names an image by one of the configured extensions.
    pub fn is_supported_format(&self, path: &str) -> (r: bool)
        ensures
            r == self.accepts(path@),
    {
        match path_extension(path) {
            Some(e) => self.is_supported_extension(e.as_str()),
            None => false,
        }
    }
}

impl Clone for Config {
    fn clone(&self) -> (r: Config)
        ensures
            views(r.wallpaper_directories@) == views(self.wallpaper_directories@),
            views(r.supported_formats@) == views(self.supported_formats@),
            r.thumbnail_size == self.thumbnail_size,
            r.cache_directory@ == self.cache_directory@,
            r.max_cache_size_mb == self.max_cache_size_mb,
    {
        Config {
            wallpaper_directories: clone_strings(&self.wallpaper_directories),
            supported_formats: clone_strings(&self.supported_formats),
            thumbnail_size: self.thumbnail_size,
            cache_directory: self.cache_directory.clone(),
            max_cache_size_mb: self.max_cache_size_mb,
        }
    }
}

/// A copy of a list of strings.
pub fn clone_strings(v: &Vec<String>) -> (r: Vec<String>)
    ensures
        views(r@) == views(v@),
{
    let mut out: Vec<String> = Vec::new();
    let mut i: usize = 0;
    while i < v.len()
        invariant
            i <= v@.len(),
            views(out@) == views(v@.subrange(0, i as int)),
        decreases v@.len() - i,
    {
        let c: String = String::from_str(v[i].as_str());
        let ghost before = out@;
        out.push(c);
        proof {
            crate::wallpaper::lemma_views_push(before, c);
            assert(v@.subrange(0, i as int + 1) =~= v@.subrange(0, i as int).push(v@[i as int]));
            crate::wallpaper::lemma_views_push(v@.subrange(0, i as int), v@[i as int]);
        }
        i = i + 1;
    }
    assert(v@.subrange(0, v@.len() as int) =~= v@);
    out
}

impl Config {
    /// The default settings for the given picture and cache directories (`.`
    /// where there is none): the picture directory as the only root, the six
    /// common formats, a 200 by 150 thumbnail box, a cache under the cache
    /// directory, and a 500 MB cap.
    pub fn with_directories(pictures: Option<String>, cache: Option<String>) -> (r: Config)
        ensures
            views(r.wallpaper_directories@) == seq![
                match opt_view(pictures) {
                    Some(p) => p,
                    None => seq!['.'],
                },
            ],
            views(r.supported_formats@) == default_formats(),
            r.thumbnail_size == (200u32, 150u32),
            r.cache_directory@ == joined_path(
                match opt_view(cache) {
                    Some(c) => c,
                    None => seq!['.'],
                },
                app_dir_name(),
            ),
            r.max_cache_size_mb == 500,
    {
        proof {
            reveal_strlit(".");
            assert("."@ =~= seq!['.']);
        }
        let pictures = match pictures {
            Some(p) => p,
            None => String::from_str("."),
        };
        let mut dirs: Vec<String> = Vec::new();
        let ghost p = pictures;
        dirs.push(pictures);
        proof {
            crate::wallpaper::lemma_views_push(Seq::<String>::empty(), p);
            assert(Seq::<String>::empty().push(p) == dirs@);
            assert(views(Seq::<String>::empty()) =~= Seq::<Seq<char>>::empty());
            assert(Seq::<Seq<char>>::empty().push(p@) =~= seq![p@]);
        }
        let mut formats: Vec<String> = Vec::new();
        formats.push(String::from_str("jpg"));
        formats.push(String::from_str("jpeg"));
        formats.push(String::from_str("png"));
        formats.push(String::from_str("bmp"));
        formats.push(String::from_str("gif"));
        formats.push(String::from_str("webp"));
        let cache_base = match cache {
            Some(c) => c,
            None => String::from_str("."),
        };
        let cache_directory = path_join(cache_base.as_str(), "wallpaper-explorer");
        proof {
            reveal_strlit("jpg");
            assert("jpg"@ =~= seq!['j', 'p', 'g']);
            reveal_strlit("jpeg");
            assert("jpeg"@ =~= seq!['j', 'p', 'e', 'g']);
            reveal_strlit("png");
            assert("png"@ =~= seq!['p', 'n', 'g']);
            reveal_strlit("bmp");
            assert("bmp"@ =~= seq!['b', 'm', 'p']);
            reveal_strlit("gif");
            assert("gif"@ =~= seq!['g', 'i', 'f']);
            reveal_strlit("webp");
            assert("webp"@ =~= seq!['w', 'e', 'b', 'p']);
            reveal_strlit("wallpaper-explorer");
            assert("wallpaper-explorer"@ =~= app_dir_name());
            assert(views(formats@) =~= default_formats());
        }
        Config {
            wallpaper_directories: dirs,
            supported_formats: formats,
            thumbnail_size: (200, 150),
            cache_directory,
            max_cache_size_mb: 500,
        }
    }
}

} // verus!
