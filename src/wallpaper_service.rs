//! The catalog of one scan: which walked entries become records, how the
//! per-root results are gathered, and the queries over the records.

use vstd::prelude::*;
use crate::config::Config;
use crate::error::WallpaperError;
use crate::paths::opt_view;
use crate::text::{eq_ignore_ascii_case, str_eq_ignore_ascii_case};
use crate::paths::joined_path;
use crate::thumbnail_service::{thumbnails_dir_name, ThumbnailService};
use crate::wallpaper::{display_name_of, format_of, id_of, Timestamp, Wallpaper};

verus! {

/// One entry met while walking a root directory.
#[derive(Debug)]
pub struct DirEntry {
    pub path: String,
    pub is_file: bool,
}

/// What reading one candidate file gave: its metadata, and the dimensions
/// and thumbnail where they could be had.
#[derive(Debug)]
pub struct FileFacts {
    pub file_size: u64,
    pub created_at: Timestamp,
    pub modified_at: Timestamp,
    pub dimensions: Option<(u32, u32)>,
    pub thumbnail: Option<String>,
}

/// What walking one configured root gave.
#[derive(Debug)]
pub enum RootScan {
    /// The root does not exist; it is skipped with a warning.
    Missing,
    /// The records built for its image files, and the traversal error that
    /// stopped the walk early, if one did.
    Walked { records: Vec<Wallpaper>, error: Option<String> },
}

/// How a scan went besides the records it found.
#[derive(Debug)]
pub struct ScanReport {
    /// Roots that do not exist.
    pub missing_roots: usize,
    /// One error for each root whose walk was cut short.
    pub errors: Vec<WallpaperError>,
}

/// The records a root contributes.
pub open spec fn root_records(root: RootScan) -> Seq<Wallpaper> {
    match root {
        RootScan::Walked { records, .. } => records@,
        RootScan::Missing => seq![],
    }
}

/// The records of all roots, in order.
pub open spec fn scanned_records(roots: Seq<RootScan>) -> Seq<Wallpaper>
    decreases roots.len(),
{
    if roots.len() == 0 {
        seq![]
    } else {
        scanned_records(roots.drop_last()) + root_records(roots.last())
    }
}

/// The number of missing roots.
pub open spec fn missing_count(roots: Seq<RootScan>) -> nat
    decreases roots.len(),
{
    if roots.len() == 0 {
        0
    } else {
        missing_count(roots.drop_last()) + if roots.last() is Missing {
            1nat
        } else {
            0nat
        }
    }
}

/// The traversal errors of all roots, in order.
pub open spec fn scan_errors(roots: Seq<RootScan>) -> Seq<WallpaperError>
    decreases roots.len(),
{
    if roots.len() == 0 {
        seq![]
    } else {
        scan_errors(roots.drop_last()) + match roots.last() {
            RootScan::Walked { error: Some(msg), .. } => seq![WallpaperError::Service(msg)],
            _ => seq![],
        }
    }
}

/// The paths of the entries that are files the configuration accepts.
pub open spec fn candidate_paths(config: Config, entries: Seq<DirEntry>) -> Seq<Seq<char>>
    decreases entries.len(),
{
    if entries.len() == 0 {
        seq![]
    } else {
        let e = entries.last();
        candidate_paths(config, entries.drop_last()) + if e.is_file && config.accepts(e.path@) {
            seq![e.path@]
        } else {
            seq![]
        }
    }
}

/// The candidates whose metadata could be read, each with what was read.
pub open spec fn readable(paths: Seq<Seq<char>>, facts: Seq<Option<FileFacts>>) -> Seq<
    (Seq<char>, FileFacts),
>
    decreases paths.len(),
{
    if paths.len() == 0 || facts.len() == 0 {
        seq![]
    } else {
        readable(paths.drop_last(), facts.drop_last()) + match facts.last() {
            Some(f) => seq![(paths.last(), f)],
            None => seq![],
        }
    }
}

/// `w` is the record built for the file at `path` from what was read of it.
pub open spec fn is_record_for(w: Wallpaper, path: Seq<char>, f: FileFacts) -> bool {
    &&& w.id@ == id_of(path)
    &&& w.path@ == path
    &&& w.filename@ == display_name_of(path)
    &&& w.format@ == format_of(path)
    &&& w.size == match f.dimensions {
        Some(d) => d,
        None => (0u32, 0u32),
    }
    &&& w.file_size == f.file_size
    &&& opt_view(w.thumbnail_path) == opt_view(f.thumbnail)
    &&& w.created_at == f.created_at
    &&& w.modified_at == f.modified_at
    &&& w.tags@.len() == 0
}

/// The records whose format matches, ignoring ASCII case.
pub open spec fn with_format(ws: Seq<Wallpaper>, format: Seq<char>) -> Seq<Wallpaper> {
    ws.filter(|w: Wallpaper| eq_ignore_ascii_case(w.format@, format))
}

/// The records at least `min_width` wide and `min_height` high.
pub open spec fn at_least_size(ws: Seq<Wallpaper>, min_width: u32, min_height: u32) -> Seq<
    Wallpaper,
> {
    ws.filter(|w: Wallpaper| w.size.0 >= min_width && w.size.1 >= min_height)
}

/// The records a list of references points at.
pub open spec fn derefs(v: Seq<&Wallpaper>) -> Seq<Wallpaper> {
    v.map_values(|w: &Wallpaper| *w)
}

/// The record built for a file: the base record, with the dimensions and
/// thumbnail that could be had.
pub open spec fn assembled(
    base: Wallpaper,
    dimensions: Option<(u32, u32)>,
    thumbnail: Option<String>,
) -> Wallpaper {
    let sized = match dimensions {
        Some(d) => Wallpaper { size: d, ..base },
        None => base,
    };
    match thumbnail {
        Some(t) => Wallpaper { thumbnail_path: Some(t), ..sized },
        None => sized,
    }
}

/// The configuration, the thumbnail cache and the records of the last scan.
#[derive(Debug)]
pub struct WallpaperService {
    config: Config,
    thumbnail_service: ThumbnailService,
    wallpapers: Vec<Wallpaper>,
}

impl WallpaperService {
    /// The records of the last scan.
    pub closed spec fn records(&self) -> Seq<Wallpaper> {
        self.wallpapers@
    }

    /// The configuration scans run with.
    pub closed spec fn settings(&self) -> Config {
        self.config
    }

    /// The thumbnail cache follows the configuration.
    pub closed spec fn wf(&self) -> bool {
        &&& self.thumbnail_service.cache_dir() == joined_path(
            self.config.cache_directory@,
            thumbnails_dir_name(),
        )
        &&& self.thumbnail_service.max_size() == self.config.thumbnail_size
    }

    /// A service with no records yet.
    pub fn new(config: &Config) -> (r: WallpaperService)
        ensures
            r.wf(),
            r.records().len() == 0,
            crate::wallpaper::views(r.settings().supported_formats@) == crate::wallpaper::views(
                config.supported_formats@,
            ),
            crate::wallpaper::views(r.settings().wallpaper_directories@)
                == crate::wallpaper::views(config.wallpaper_directories@),
            r.settings().thumbnail_size == config.thumbnail_size,
            r.settings().cache_directory@ == config.cache_directory@,
    {
        WallpaperService {
            config: config.clone(),
            thumbnail_service: ThumbnailService::new(config),
            wallpapers: Vec::new(),
        }
    }

    /// The configuration scans run with.
    pub fn config(&self) -> (r: &Config)
        ensures
            *r == self.settings(),
    {
        &self.config
    }

    /// The thumbnail cache.
    pub fn thumbnail_service(&self) -> (r: &ThumbnailService)
        requires
            self.wf(),
        ensures
            r.cache_dir() == joined_path(self.settings().cache_directory@, thumbnails_dir_name()),
            r.max_size() == self.settings().thumbnail_size,
    {
        &self.thumbnail_service
    }

    /// The paths, in walk order, of the entries that are files with a
    /// configured image extension.
    pub fn select_candidates(&self, entries: &Vec<DirEntry>) -> (r: Vec<String>)
        ensures
            crate::wallpaper::views(r@) == candidate_paths(self.settings(), entries@),
    {
        let mut out: Vec<String> = Vec::new();
        let mut i: usize = 0;
        while i < entries.len()
            invariant
                i <= entries@.len(),
                crate::wallpaper::views(out@) == candidate_paths(
                    self.settings(),
                    entries@.subrange(0, i as int),
                ),
            decreases entries@.len() - i,
        {
            assert(entries@.subrange(0, i as int + 1).drop_last() =~= entries@.subrange(0, i as int));
            let e = &entries[i];
            if e.is_file && self.config.is_supported_format(e.path.as_str()) {
                let ghost before = out@;
                let p = String::from_str(e.path.as_str());
                out.push(p);
                proof {
                    crate::wallpaper::lemma_views_push(before, p);
                }
            }
            i = i + 1;
        }
        assert(entries@.subrange(0, entries@.len() as int) =~= entries@);
        out
    }

    /// A root's result from its walked entries, what was read of each
    /// candidate (in the order `select_candidates` gives them; `None` where the
    /// metadata could not be read) and the error that cut the walk short, if
    /// any: one record for each readable candidate, in walk order.
    pub fn scan_root(
        &self,
        entries: &Vec<DirEntry>,
        facts: Vec<Option<FileFacts>>,
        error: Option<String>,
    ) -> (r: RootScan)
        requires
            facts@.len() == candidate_paths(self.settings(), entries@).len(),
        ensures
            match r {
                RootScan::Walked { records, error: e } => {
                    let kept = readable(candidate_paths(self.settings(), entries@), facts@);
                    &&& e == error
                    &&& records@.len() == kept.len()
                    &&& forall|i: int|
                        0 <= i < kept.len() ==> is_record_for(
                            #[trigger] records@[i],
                            kept[i].0,
                            kept[i].1,
                        )
                },
                RootScan::Missing => false,
            },
    {
        let candidates = self.select_candidates(entries);
        let ghost paths = candidate_paths(self.settings(), entries@);
        let ghost all = facts@;
        let mut rest = facts;
        let total: usize = rest.len();
        let mut records: Vec<Wallpaper> = Vec::new();
        let mut i: usize = 0;
        while rest.len() > 0
            invariant
                i <= all.len(),
                total == all.len(),
                all.len() == paths.len(),
                candidates@.len() == paths.len(),
                crate::wallpaper::views(candidates@) == paths,
                rest@ == all.subrange(i as int, all.len() as int),
                records@.len() == readable(paths.subrange(0, i as int), all.subrange(0, i as int)).len(),
                forall|k: int|
                    0 <= k < records@.len() ==> is_record_for(
                        #[trigger] records@[k],
                        readable(paths.subrange(0, i as int), all.subrange(0, i as int))[k].0,
                        readable(paths.subrange(0, i as int), all.subrange(0, i as int))[k].1,
                    ),
            decreases rest@.len(),
        {
            let fact = rest.remove(0);
            let ghost prev = readable(paths.subrange(0, i as int), all.subrange(0, i as int));
            proof {
                assert(fact == all[i as int]);
                assert(paths.subrange(0, i as int + 1).drop_last() =~= paths.subrange(0, i as int));
                assert(all.subrange(0, i as int + 1).drop_last() =~= all.subrange(0, i as int));
                assert(paths.subrange(0, i as int + 1).last() == paths[i as int]);
                assert(all.subrange(0, i as int + 1).last() == all[i as int]);
                assert(candidates@[i as int]@ == paths[i as int]);
            }
            match fact {
                Some(f) => {
                    let path = String::from_str(candidates[i].as_str());
                    let base = Wallpaper::new(path, f.file_size, f.created_at, f.modified_at);
                    let w = Self::process_wallpaper_file(base, f.dimensions, f.thumbnail);
                    let ghost before = records@;
                    records.push(w);
                    proof {
                        let now = readable(
                            paths.subrange(0, i as int + 1),
                            all.subrange(0, i as int + 1),
                        );
                        assert(now == prev + seq![(paths[i as int], f)]);
                        assert forall|k: int| 0 <= k < records@.len() implies is_record_for(
                            #[trigger] records@[k],
                            now[k].0,
                            now[k].1,
                        ) by {
                            if k < before.len() {
                                assert(records@[k] == before[k]);
                                assert(now[k] == prev[k]);
                            } else {
                                assert(now[k] == (paths[i as int], f));
                            }
                        }
                    }
                },
                None => {
                    proof {
                        let now = readable(
                            paths.subrange(0, i as int + 1),
                            all.subrange(0, i as int + 1),
                        );
                        assert(now =~= prev);
                    }
                },
            }
            i = i + 1;
            proof {
                assert(rest@ =~= all.subrange(i as int, all.len() as int));
            }
        }
        proof {
            assert(paths.subrange(0, i as int) =~= paths);
            assert(all.subrange(0, i as int) =~= all);
        }
        RootScan::Walked { records, error }
    }

    /// The record for one file from the base record and what measuring and
    /// thumbnailing it gave; a failed step leaves its field as it was.
    pub fn process_wallpaper_file(
        base: Wallpaper,
        dimensions: Option<(u32, u32)>,
        thumbnail: Option<String>,
    ) -> (r: Wallpaper)
        ensures
            r == assembled(base, dimensions, thumbnail),
    {
        let sized = match dimensions {
            Some(d) => base.with_dimensions(d.0, d.1),
            None => base,
        };
        match thumbnail {
            Some(t) => sized.with_thumbnail(t),
            None => sized,
        }
    }

    /// Replaces the records with those of the given roots, in order: missing
    /// roots are counted, and a root whose walk was cut short keeps the records
    /// found before and adds an error, without stopping the other roots.
    pub fn scan_wallpapers(&mut self, roots: Vec<RootScan>) -> (r: ScanReport)
        requires
            old(self).wf(),
        ensures
            final(self).wf(),
            final(self).records() == scanned_records(roots@),
            final(self).settings() == old(self).settings(),
            r.missing_roots == missing_count(roots@),
            r.errors@ == scan_errors(roots@),
    {
        let ghost all = roots@;
        self.wallpapers.clear();
        let mut rest = roots;
        let total: usize = rest.len();
        let mut missing: usize = 0;
        let mut errors: Vec<WallpaperError> = Vec::new();
        let ghost mut done: int = 0;
        assert(all.subrange(0, 0) =~= Seq::<RootScan>::empty());
        while rest.len() > 0
            invariant
                0 <= done <= all.len(),
                total == all.len(),
                rest@ == all.subrange(done, all.len() as int),
                self.wallpapers@ == scanned_records(all.subrange(0, done)),
                missing as nat == missing_count(all.subrange(0, done)),
                missing <= done,
                errors@ == scan_errors(all.subrange(0, done)),
                self.config == old(self).config,
                self.thumbnail_service == old(self).thumbnail_service,
            decreases rest@.len(),
        {
            let root = rest.remove(0);
            proof {
                assert(root == all[done]);
                assert(all.subrange(0, done + 1).drop_last() =~= all.subrange(0, done));
                assert(all.subrange(0, done + 1).last() == all[done]);
            }
            match root {
                RootScan::Missing => {
                    missing = missing + 1;
                },
                RootScan::Walked { records, error } => {
                    let mut records = records;
                    let ghost before = self.wallpapers@;
                    let ghost recs = records@;
                    self.wallpapers.append(&mut records);
                    assert(self.wallpapers@ == before + recs);
                    match error {
                        Some(msg) => {
                            let ghost eb = errors@;
                            errors.push(WallpaperError::Service(msg));
                            assert(errors@ =~= eb + seq![WallpaperError::Service(msg)]);
                        },
                        None => {
                            assert(errors@ =~= errors@ + Seq::<WallpaperError>::empty());
                        },
                    }
                },
            }
            proof {
                done = done + 1;
                assert(rest@ =~= all.subrange(done, all.len() as int));
            }
        }
        assert(all.subrange(0, all.len() as int) =~= all);
        ScanReport { missing_roots: missing, errors }
    }

    /// The records of the last scan.
    pub fn get_wallpapers(&self) -> (r: &[Wallpaper])
        ensures
            r@ == self.records(),
    {
        self.wallpapers.as_slice()
    }

    /// The first record with the given id, if any.
    pub fn get_wallpaper_by_id(&self, id: &str) -> (r: Option<&Wallpaper>)
        ensures
            match r {
                Some(w) => exists|i: int|
                    0 <= i < self.records().len() && self.records()[i] == *w && w.id@ == id@
                        && forall|j: int| 0 <= j < i ==> #[trigger] self.records()[j].id@ != id@,
                None => forall|i: int|
                    0 <= i < self.records().len() ==> #[trigger] self.records()[i].id@ != id@,
            },
    {
        let mut i: usize = 0;
        while i < self.wallpapers.len()
            invariant
                i <= self.wallpapers@.len(),
                forall|j: int| 0 <= j < i ==> #[trigger] self.wallpapers@[j].id@ != id@,
            decreases self.wallpapers@.len() - i,
        {
            if crate::text::str_equal(self.wallpapers[i].id.as_str(), id) {
                return Some(&self.wallpapers[i]);
            }
            i = i + 1;
        }
        None
    }

    /// The records whose format matches, ignoring ASCII case, in catalog order.
    pub fn filter_by_format(&self, format: &str) -> (r: Vec<&Wallpaper>)
        ensures
            derefs(r@) == with_format(self.records(), format@),
    {
        let ghost ws = self.wallpapers@;
        let mut out: Vec<&Wallpaper> = Vec::new();
        let mut i: usize = 0;
        while i < self.wallpapers.len()
            invariant
                i <= ws.len(),
                ws == self.wallpapers@,
                derefs(out@) == with_format(ws.subrange(0, i as int), format@),
            decreases ws.len() - i,
        {
            proof {
                reveal(Seq::filter);
                assert(ws.subrange(0, i as int + 1).drop_last() =~= ws.subrange(0, i as int));
                assert(ws.subrange(0, i as int + 1).last() == ws[i as int]);
            }
            let w = &self.wallpapers[i];
            if str_eq_ignore_ascii_case(w.format.as_str(), format) {
                let ghost before = out@;
                out.push(w);
                assert(derefs(out@) =~= derefs(before).push(*w));
            }
            i = i + 1;
        }
        assert(ws.subrange(0, ws.len() as int) =~= ws);
        out
    }

    /// The records at least `min_width` wide and `min_height` high, in catalog
    /// order.
    pub fn filter_by_size(&self, min_width: u32, min_height: u32) -> (r: Vec<&Wallpaper>)
        ensures
            derefs(r@) == at_least_size(self.records(), min_width, min_height),
    {
        let ghost ws = self.wallpapers@;
        let mut out: Vec<&Wallpaper> = Vec::new();
        let mut i: usize = 0;
        while i < self.wallpapers.len()
            invariant
                i <= ws.len(),
                ws == self.wallpapers@,
                derefs(out@) == at_least_size(ws.subrange(0, i as int), min_width, min_height),
            decreases ws.len() - i,
        {
            proof {
                reveal(Seq::filter);
                assert(ws.subrange(0, i as int + 1).drop_last() =~= ws.subrange(0, i as int));
                assert(ws.subrange(0, i as int + 1).last() == ws[i as int]);
            }
            let w = &self.wallpapers[i];
            if w.size.0 >= min_width && w.size.1 >= min_height {
                let ghost before = out@;
                out.push(w);
                assert(derefs(out@) =~= derefs(before).push(*w));
            }
            i = i + 1;
        }
        assert(ws.subrange(0, ws.len() as int) =~= ws);
        out
    }
}

} // verus!
