//! The error categories that reach a caller.

use vstd::prelude::*;

verus! {

/// What went wrong, with a message: an I/O failure, an image that could not be
/// decoded or encoded, a bad configuration, or a failed scan step.
#[derive(Debug)]
pub enum WallpaperError {
    Io(String),
    Image(String),
    Config(String),
    Service(String),
}

/// A result whose error is a `WallpaperError`.
pub type Result<T> = core::result::Result<T, WallpaperError>;

} // verus!
