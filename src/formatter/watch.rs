//! Decisions of the watch mode; the watching itself is done by the caller.
use vstd::prelude::*;

use crate::text::{chars_of, text_of_range, same_text};

verus! {

/// Files or directories to watch, and whether formatted files are written
/// back.
pub struct WatchMode {
    pub paths: Vec<String>,
    pub write: bool,
}

/// Milliseconds within which a second change to the same file is ignored.
pub const DEBOUNCE_MS: u64 = 100;

/// Whether `path` names a `.mon` file: it ends with `.mon` after a file
/// name that is not empty.
pub open spec fn is_mon_file(path: Seq<char>) -> bool {
    path.len() > 4 && path.subrange(path.len() - 4, path.len() as int) == ".mon"@ && path[path.len()
        - 5] != '/'
}

/// Whether a change at `now_ms` should be acted on: the file is a `.mon`
/// file not formatted within the last [`DEBOUNCE_MS`] milliseconds.
pub open spec fn acts_on(path: Seq<char>, now_ms: u64, last_ms: Option<u64>) -> bool {
    is_mon_file(path) && match last_ms {
        Some(l) => now_ms >= l + DEBOUNCE_MS,
        None => true,
    }
}

impl WatchMode {
    pub fn new(paths: Vec<String>, write: bool) -> (r: Self)
        ensures
            r.paths == paths,
            r.write == write,
    {
        WatchMode { paths, write }
    }

    /// Whether a change to `path` seen at `now_ms` should trigger
    /// formatting, given when the file was last formatted.
    pub fn should_format(&self, path: &str, now_ms: u64, last_ms: Option<u64>) -> (r: bool)
        ensures
            r == acts_on(path@, now_ms, last_ms),
    {
        let cs = chars_of(path);
        let n = cs.len();
        if n <= 4 {
            return false;
        }
        let tail = text_of_range(&cs, n - 4, n);
        if !same_text(tail.as_str(), ".mon") || cs[n - 5] == '/' {
            return false;
        }
        match last_ms {
            Some(l) => l <= u64::MAX - DEBOUNCE_MS && now_ms >= l + DEBOUNCE_MS,
            None => true,
        }
    }
}

} // verus!
