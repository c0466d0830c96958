//! Paths are held as strings; the operations whose meaning std's `Path`
//! defines (component splitting, joining, hashing) are called through it.

use vstd::prelude::*;

verus! {

/// What `Path::extension` gives for a path.
pub uninterp spec fn extension_of(path: Seq<char>) -> Option<Seq<char>>;

/// What `Path::file_name` gives for a path.
pub uninterp spec fn file_name_of(path: Seq<char>) -> Option<Seq<char>>;

/// What `Path::join` gives for a base and an appended part.
pub uninterp spec fn joined_path(base: Seq<char>, part: Seq<char>) -> Seq<char>;

/// What `Path::strip_prefix` leaves of a path once a base is taken off.
pub uninterp spec fn stripped_prefix_of(path: Seq<char>, base: Seq<char>) -> Option<Seq<char>>;

/// The 64-bit hash that std's `DefaultHasher::new()` gives for a path.
pub uninterp spec fn path_hash_of(path: Seq<char>) -> u64;

/// What `str::to_lowercase` gives.
pub uninterp spec fn lowercase_of(s: Seq<char>) -> Seq<char>;

/// The view of an optional string.
pub open spec fn opt_view(o: Option<String>) -> Option<Seq<char>> {
    match o {
        Some(s) => Some(s@),
        None => None,
    }
}

/// Relies on `std::path::Path::extension`: the text after the last dot of the
/// final component, if any; taken from a `&str`, it is valid UTF-8.
#[verifier::external_body]
pub(crate) fn path_extension(path: &str) -> (r: Option<String>)
    ensures
        opt_view(r) == extension_of(path@),
{
    std::path::Path::new(path).extension().and_then(|e| e.to_str()).map(|e| e.to_string())
}

/// Relies on `std::path::Path::file_name`: the final normal component, if any.
#[verifier::external_body]
pub(crate) fn path_file_name(path: &str) -> (r: Option<String>)
    ensures
        opt_view(r) == file_name_of(path@),
{
    std::path::Path::new(path).file_name().and_then(|e| e.to_str()).map(|e| e.to_string())
}

/// Relies on `std::path::Path::join`: `part` appended to `base` as a path.
#[verifier::external_body]
pub(crate) fn path_join(base: &str, part: &str) -> (r: String)
    ensures
        r@ == joined_path(base@, part@),
{
    std::path::Path::new(base).join(part).to_string_lossy().into_owned()
}

/// Relies on `std::path::Path::strip_prefix`: the rest of `path` when `base`
/// is a prefix of it, component by component.
#[verifier::external_body]
pub(crate) fn path_strip_prefix(path: &str, base: &str) -> (r: Option<String>)
    ensures
        opt_view(r) == stripped_prefix_of(path@, base@),
{
    std::path::Path::new(path).strip_prefix(base).ok().map(|p| p.to_string_lossy().into_owned())
}

/// Relies on hashing a `std::path::Path` into a `DefaultHasher::new()`, whose
/// keys are fixed, so that one path always gives one value.
#[verifier::external_body]
pub(crate) fn path_hash(path: &str) -> (r: u64)
    ensures
        r == path_hash_of(path@),
{
    let mut hasher = std::collections::hash_map::DefaultHasher::new();
    std::hash::Hash::hash(std::path::Path::new(path), &mut hasher);
    std::hash::Hasher::finish(&hasher)
}

/// Relies on `str::to_lowercase`: the result depends on the characters alone.
#[verifier::external_body]
pub(crate) fn to_lowercase(s: &str) -> (r: String)
    ensures
        r@ == lowercase_of(s@),
{
    s.to_lowercase()
}

} // verus!
