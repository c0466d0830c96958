//! The thumbnail cache's rules: where an artifact lives, when it can be
//! reused, and what size a regenerated one has.

use vstd::prelude::*;
use crate::config::Config;
use crate::image_utils::{calculate_scaled_size, scaled_size};
use crate::paths::{joined_path, path_hash, path_hash_of, path_join};
use crate::text::{hex_digits, to_hex};
use crate::wallpaper::Timestamp;

verus! {

/// `thumbnails`, the cache's subdirectory.
pub open spec fn thumbnails_dir_name() -> Seq<char> {
    seq!['t', 'h', 'u', 'm', 'b', 'n', 'a', 'i', 'l', 's']
}

/// The artifact's file name: the source path's hash in hex, then `.jpg`.
pub open spec fn thumbnail_file_name(source: Seq<char>) -> Seq<char> {
    hex_digits(path_hash_of(source) as nat) + seq!['.', 'j', 'p', 'g']
}

/// An artifact is fresh when it exists and is no older than its source.
pub open spec fn is_fresh(thumbnail_modified: Option<Timestamp>, source_modified: Timestamp) -> bool {
    match thumbnail_modified {
        Some(t) => t.as_nanos() >= source_modified.as_nanos(),
        None => false,
    }
}

/// What resolving a source's thumbnail calls for.
#[derive(Debug)]
pub enum ThumbnailPlan {
    /// The artifact at this path is fresh: use it as it is.
    Reuse(String),
    /// Decode the source and write a new artifact at this path.
    Regenerate(String),
}

impl ThumbnailPlan {
    /// The artifact path the plan names.
    pub open spec fn path(&self) -> Seq<char> {
        match self {
            ThumbnailPlan::Reuse(p) => p@,
            ThumbnailPlan::Regenerate(p) => p@,
        }
    }

    /// Whether the plan rewrites the artifact.
    pub open spec fn rewrites(&self) -> bool {
        self is Regenerate
    }
}

/// Where cached thumbnails live and the box they are fitted into.
#[derive(Debug)]
pub struct ThumbnailService {
    cache_directory: String,
    thumbnail_size: (u32, u32),
}

impl ThumbnailService {
    /// The directory holding the artifacts.
    pub closed spec fn cache_dir(&self) -> Seq<char> {
        self.cache_directory@
    }

    /// The largest thumbnail width and height.
    pub closed spec fn max_size(&self) -> (u32, u32) {
        self.thumbnail_size
    }

    /// The artifact path for a source path.
    pub open spec fn artifact_path(&self, source: Seq<char>) -> Seq<char> {
        joined_path(self.cache_dir(), thumbnail_file_name(source))
    }

    /// The plan for a source, given its artifact's modification time (if the
    /// artifact exists) and the source's own.
    pub open spec fn plan_for(
        &self,
        source: Seq<char>,
        thumbnail_modified: Option<Timestamp>,
        source_modified: Timestamp,
    ) -> (bool, Seq<char>) {
        (!is_fresh(thumbnail_modified, source_modified), self.artifact_path(source))
    }

    /// The service for a configuration: artifacts under `<cache>/thumbnails`.
    pub fn new(config: &Config) -> (r: ThumbnailService)
        ensures
            r.cache_dir() == joined_path(config.cache_directory@, thumbnails_dir_name()),
            r.max_size() == config.thumbnail_size,
    {
        proof {
            reveal_strlit("thumbnails");
            assert("thumbnails"@ =~= thumbnails_dir_name());
        }
        ThumbnailService {
            cache_directory: path_join(config.cache_directory.as_str(), "thumbnails"),
            thumbnail_size: config.thumbnail_size,
        }
    }

    /// The directory holding the artifacts.
    pub fn cache_directory(&self) -> (r: &str)
        ensures
            r@ == self.cache_dir(),
    {
        self.cache_directory.as_str()
    }

    /// The largest thumbnail width and height.
    pub fn thumbnail_size(&self) -> (r: (u32, u32))
        ensures
            r == self.max_size(),
    {
        self.thumbnail_size
    }

    /// The artifact path for a source: one file per source path.
    pub fn get_thumbnail_path(&self, image_path: &str) -> (r: String)
        ensures
            r@ == self.artifact_path(image_path@),
    {
        let mut name = to_hex(path_hash(image_path));
        proof {
            reveal_strlit(".jpg");
            assert(".jpg"@ =~= seq!['.', 'j', 'p', 'g']);
        }
        name.append(".jpg");
        path_join(self.cache_directory.as_str(), name.as_str())
    }

    /// Whether an artifact with the given modification time (if it exists)
    /// can stand for a source with the given one.
    pub fn is_thumbnail_valid(thumbnail_modified: Option<Timestamp>, original_modified: Timestamp) -> (r:
        bool)
        requires
            original_modified.wf(),
            thumbnail_modified matches Some(t) ==> t.wf(),
        ensures
            r == is_fresh(thumbnail_modified, original_modified),
    {
        match thumbnail_modified {
            Some(t) => t.is_at_or_after(&original_modified),
            None => false,
        }
    }

    /// Decides between reusing the artifact and regenerating it.
    pub fn plan_thumbnail(
        &self,
        image_path: &str,
        thumbnail_modified: Option<Timestamp>,
        original_modified: Timestamp,
    ) -> (r: ThumbnailPlan)
        requires
            original_modified.wf(),
            thumbnail_modified matches Some(t) ==> t.wf(),
        ensures
            (r.rewrites(), r.path()) == self.plan_for(
                image_path@,
                thumbnail_modified,
                original_modified,
            ),
    {
        let path = self.get_thumbnail_path(image_path);
        if Self::is_thumbnail_valid(thumbnail_modified, original_modified) {
            ThumbnailPlan::Reuse(path)
        } else {
            ThumbnailPlan::Regenerate(path)
        }
    }

    /// The size of a regenerated thumbnail for an image of the given size.
    pub fn calculate_thumbnail_size(&self, original_width: u32, original_height: u32) -> (r: (
        u32,
        u32,
    ))
        ensures
            (r.0 as int, r.1 as int) == scaled_size(
                original_width as int,
                original_height as int,
                self.max_size().0 as int,
                self.max_size().1 as int,
            ),
    {
        calculate_scaled_size(original_width, original_height, self.thumbnail_size.0, self.thumbnail_size.1)
    }
}

/// Resolving twice with no change to the source names the same artifact both
/// times, and the second time reuses it: once an artifact no older than the
/// source is in place, nothing is rewritten.
pub proof fn lemma_resolve_idempotent(
    service: ThumbnailService,
    source: Seq<char>,
    first_thumbnail_modified: Option<Timestamp>,
    written_at: Timestamp,
    source_modified: Timestamp,
)
    requires
        written_at.as_nanos() >= source_modified.as_nanos(),
    ensures
        service.plan_for(source, first_thumbnail_modified, source_modified).1 == service.plan_for(
            source,
            Some(written_at),
            source_modified,
        ).1,
        !service.plan_for(source, Some(written_at), source_modified).0,
{
}

/// Once the source is modified after its artifact was written, the next
/// resolution regenerates the artifact.
pub proof fn lemma_touched_source_regenerates(
    service: ThumbnailService,
    source: Seq<char>,
    thumbnail_modified: Timestamp,
    source_modified: Timestamp,
)
    requires
        source_modified.as_nanos() > thumbnail_modified.as_nanos(),
    ensures
        service.plan_for(source, Some(thumbnail_modified), source_modified).0,
{
}

} // verus!
