//! The wallpaper record built for each image file found by a scan.

use vstd::prelude::*;
use crate::paths::{
    extension_of, file_name_of, lowercase_of, opt_view, path_extension, path_file_name, path_hash,
    path_hash_of, to_lowercase,
};
use crate::text::{hex_digits, to_hex};

verus! {

/// A point in time as seconds and nanoseconds since the Unix epoch.
#[derive(Debug, Clone, Copy, PartialEq, Eq, Structural)]
pub struct Timestamp {
    pub seconds: i64,
    pub nanos: u32,
}

impl Timestamp {
    /// The nanoseconds stay below one second.
    pub open spec fn wf(&self) -> bool {
        self.nanos < 1_000_000_000
    }

    /// The instant in nanoseconds.
    pub open spec fn as_nanos(&self) -> int {
        self.seconds as int * 1_000_000_000 + self.nanos as int
    }

    /// Builds a timestamp.
    pub fn new(seconds: i64, nanos: u32) -> (r: Timestamp)
        requires
            nanos < 1_000_000_000,
        ensures
            r.seconds == seconds,
            r.nanos == nanos,
            r.wf(),
    {
        Timestamp { seconds, nanos }
    }

    /// Whether this instant is the same as or later than `other`.
    pub fn is_at_or_after(&self, other: &Timestamp) -> (r: bool)
        requires
            self.wf(),
            other.wf(),
        ensures
            r == (self.as_nanos() >= other.as_nanos()),
    {
        self.seconds > other.seconds || (self.seconds == other.seconds && self.nanos
            >= other.nanos)
    }
}

/// The identifier of the image at a path: the hex form of the path's hash.
pub open spec fn id_of(path: Seq<char>) -> Seq<char> {
    hex_digits(path_hash_of(path) as nat)
}

/// `unknown`, the name and format of a path that has none.
pub open spec fn unknown_text() -> Seq<char> {
    seq!['u', 'n', 'k', 'n', 'o', 'w', 'n']
}

/// The file name shown for a path.
pub open spec fn display_name_of(path: Seq<char>) -> Seq<char> {
    match file_name_of(path) {
        Some(n) => n,
        None => unknown_text(),
    }
}

/// The format recorded for a path: its lower-cased extension.
pub open spec fn format_of(path: Seq<char>) -> Seq<char> {
    match extension_of(path) {
        Some(e) => lowercase_of(e),
        None => unknown_text(),
    }
}

/// The views of a list of strings.
pub open spec fn views(v: Seq<String>) -> Seq<Seq<char>> {
    v.map_values(|s: String| s@)
}

/// Appending a string appends its view.
pub proof fn lemma_views_push(s: Seq<String>, x: String)
    ensures
        views(s.push(x)) == views(s).push(x@),
{
    assert(views(s.push(x)) =~= views(s).push(x@));
}

/// One image file with what the scan learned of it.
#[derive(Debug)]
pub struct Wallpaper {
    pub id: String,
    pub path: String,
    pub filename: String,
    pub size: (u32, u32),
    pub file_size: u64,
    pub format: String,
    pub thumbnail_path: Option<String>,
    pub created_at: Timestamp,
    pub modified_at: Timestamp,
    pub tags: Vec<String>,
}

impl Wallpaper {
    /// The tags as strings.
    pub open spec fn tag_views(&self) -> Seq<Seq<char>> {
        views(self.tags@)
    }

    /// Everything but the tags is as in `other`.
    pub open spec fn same_but_tags(&self, other: &Wallpaper) -> bool {
        &&& self.id@ == other.id@
        &&& self.path@ == other.path@
        &&& self.filename@ == other.filename@
        &&& self.size == other.size
        &&& self.file_size == other.file_size
        &&& self.format@ == other.format@
        &&& opt_view(self.thumbnail_path) == opt_view(other.thumbnail_path)
        &&& self.created_at == other.created_at
        &&& self.modified_at == other.modified_at
    }

    /// A fresh record for the file at `path`, from the size and timestamps
    /// that its metadata gave: no dimensions yet `(0, 0)`, no thumbnail, no tags.
    pub fn new(path: String, file_size: u64, created_at: Timestamp, modified_at: Timestamp) -> (r:
        Wallpaper)
        ensures
            r.id@ == id_of(path@),
            r.path@ == path@,
            r.filename@ == display_name_of(path@),
            r.size == (0u32, 0u32),
            r.file_size == file_size,
            r.format@ == format_of(path@),
            r.thumbnail_path.is_none(),
            r.created_at == created_at,
            r.modified_at == modified_at,
            r.tags@.len() == 0,
    {
        proof {
            reveal_strlit("unknown");
            assert("unknown"@ =~= unknown_text());
        }
        let filename = match path_file_name(path.as_str()) {
            Some(n) => n,
            None => String::from_str("unknown"),
        };
        let format = match path_extension(path.as_str()) {
            Some(e) => to_lowercase(e.as_str()),
            None => String::from_str("unknown"),
        };
        let id = to_hex(path_hash(path.as_str()));
        Wallpaper {
            id,
            path,
            filename,
            size: (0, 0),
            file_size,
            format,
            thumbnail_path: None,
            created_at,
            modified_at,
            tags: Vec::new(),
        }
    }

    /// The record with its dimensions set.
    pub fn with_dimensions(self, width: u32, height: u32) -> (r: Wallpaper)
        ensures
            r == (Wallpaper { size: (width, height), ..self }),
    {
        let mut w = self;
        w.size = (width, height);
        w
    }

    /// The record with its thumbnail set.
    pub fn with_thumbnail(self, thumbnail_path: String) -> (r: Wallpaper)
        ensures
            r == (Wallpaper { thumbnail_path: Some(thumbnail_path), ..self }),
    {
        let mut w = self;
        w.thumbnail_path = Some(thumbnail_path);
        w
    }

    /// Adds a tag unless it is already there.
    pub fn add_tag(&mut self, tag: String)
        ensures
            final(self).same_but_tags(old(self)),
            final(self).tag_views() == if old(self).tag_views().contains(tag@) {
                old(self).tag_views()
            } else {
                old(self).tag_views().push(tag@)
            },
    {
        let ghost tv = self.tag_views();
        let mut i: usize = 0;
        while i < self.tags.len()
            invariant
                i <= self.tags@.len(),
                tv == self.tag_views(),
                forall|k: int| 0 <= k < i ==> tv[k] != tag@,
            decreases self.tags@.len() - i,
        {
            if self.tags[i] == tag {
                assert(tv[i as int] == tag@);
                return;
            }
            i = i + 1;
        }
        assert(!tv.contains(tag@));
        self.tags.push(tag);
        assert(self.tag_views() =~= tv.push(tag@));
    }

    /// Removes every occurrence of a tag.
    pub fn remove_tag(&mut self, tag: &str)
        ensures
            final(self).same_but_tags(old(self)),
            final(self).tag_views() == old(self).tag_views().filter(|t: Seq<char>| t != tag@),
    {
        let ghost tv = self.tag_views();
        let mut kept: Vec<String> = Vec::new();
        let mut i: usize = 0;
        while i < self.tags.len()
            invariant
                i <= self.tags@.len(),
                tv == self.tag_views(),
                views(kept@) == tv.subrange(0, i as int).filter(|t: Seq<char>| t != tag@),
            decreases self.tags@.len() - i,
        {
            proof {
                reveal(Seq::filter);
                assert(tv.subrange(0, i as int + 1).drop_last() =~= tv.subrange(0, i as int));
                assert(tv.subrange(0, i as int + 1).last() == tv[i as int]);
            }
            if !crate::text::str_equal(self.tags[i].as_str(), tag) {
                kept.push(self.tags[i].clone());
                assert(views(kept@) =~= tv.subrange(0, i as int).filter(|t: Seq<char>| t != tag@).push(
                    tv[i as int],
                ));
            }
            i = i + 1;
        }
        assert(tv.subrange(0, tv.len() as int) =~= tv);
        self.tags = kept;
    }
}

} // verus!
