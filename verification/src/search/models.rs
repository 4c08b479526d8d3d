//! Result types of a search and their mathematical views.

use vstd::prelude::*;
use vstd::utf8::encode_utf8;

verus! {

/// Upper bound on the number of files in one search outcome.
pub const MAX_FILE_RESULTS: usize = 2000;

/// Upper bound on the number of matches kept for one file.
pub const MAX_MATCHES_PER_FILE: usize = 100;

/// The longest matching line that is kept, in bytes, its line terminator
/// included. A longer line is dropped, not cut.
pub const MAX_LINE_BYTES: usize = 1000;

/// Number of bytes that `text` occupies as a Rust string.
pub open spec fn byte_len(text: Seq<char>) -> nat {
    encode_utf8(text).len()
}

/// One matching line of a file.
#[derive(Debug, Clone)]
pub struct SearchMatch {
    /// Number of the line within its file, counted from one.
    pub line_number: u64,
    /// The line as it stands in the file, line terminator included.
    pub line_text: String,
}

/// Mathematical value of a [`SearchMatch`].
pub struct MatchView {
    pub line_number: u64,
    pub line_text: Seq<char>,
}

impl View for SearchMatch {
    type V = MatchView;

    open spec fn view(&self) -> MatchView {
        MatchView { line_number: self.line_number, line_text: self.line_text@ }
    }
}

impl MatchView {
    /// A match is well formed when its line is short enough to be reported:
    /// it has no more than [`MAX_LINE_BYTES`] bytes.
    pub open spec fn wf(self) -> bool {
        byte_len(self.line_text) <= MAX_LINE_BYTES
    }
}

/// Views of a sequence of matches, in order.
pub open spec fn match_views(matches: Seq<SearchMatch>) -> Seq<MatchView> {
    matches.map_values(|m: SearchMatch| m@)
}

/// All matching lines that are reported for one file.
#[derive(Debug, Clone)]
pub struct FileResult {
    /// Path of the file as the tree walk produced it.
    pub path: String,
    /// The matching lines in file order.
    pub matches: Vec<SearchMatch>,
}

/// Mathematical value of a [`FileResult`].
pub struct FileResultView {
    pub path: Seq<char>,
    pub matches: Seq<MatchView>,
}

impl View for FileResult {
    type V = FileResultView;

    open spec fn view(&self) -> FileResultView {
        FileResultView { path: self.path@, matches: match_views(self.matches@) }
    }
}

impl FileResultView {
    /// A file result is well formed when it holds at least one match, no more
    /// than [`MAX_MATCHES_PER_FILE`], and each of them is well formed.
    pub open spec fn wf(self) -> bool {
        &&& 0 < self.matches.len() <= MAX_MATCHES_PER_FILE
        &&& forall|i: int| 0 <= i < self.matches.len() ==> (#[trigger] self.matches[i]).wf()
    }
}

} // verus!
