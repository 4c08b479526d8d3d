//! Scanning one file: which of its lines are reported.
//!
//! The line oriented search itself is `grep_searcher` driven by the compiled
//! matcher. It hands each matching line to [`MatchList::offer`], which
//! decides what is kept and when the scan of the file ends.

use crate::search::matcher::{CompiledMatcher, MatcherSpec};
use crate::search::models::{
    byte_len, match_views, MatchView, SearchMatch, MAX_LINE_BYTES, MAX_MATCHES_PER_FILE,
};
use crate::sequences::first_n;
use grep_searcher::sinks::UTF8;
use grep_searcher::Searcher;
use vstd::prelude::*;
use vstd::utf8::{decode_utf8, decode_utf8_encode_utf8, valid_utf8};

verus! {

/// The lines of `haystack` that the engine finds to match, in file order,
/// each with its line number and its bytes. The engine is a matcher compiled
/// from `pattern` under the three options, driven by a searcher in its
/// default configuration.
pub uninterp spec fn reported_lines(
    pattern: Seq<char>,
    case_insensitive: bool,
    whole_word: bool,
    literal: bool,
    haystack: Seq<u8>,
) -> Seq<(u64, Seq<u8>)>;

/// Whether a list of matches can take one more.
pub open spec fn has_room(found: Seq<MatchView>) -> bool {
    found.len() < MAX_MATCHES_PER_FILE
}

/// The list after line `line_number` with text `line_text` was offered to it:
/// the line is appended if the list has room and the line has no more than
/// [`MAX_LINE_BYTES`] bytes, and dropped otherwise.
pub open spec fn offered(found: Seq<MatchView>, line_number: u64, line_text: Seq<char>) -> Seq<
    MatchView,
> {
    if has_room(found) && byte_len(line_text) <= MAX_LINE_BYTES {
        found.push(MatchView { line_number, line_text })
    } else {
        found
    }
}

/// Runs a scan over the matching lines `lines` on top of `found`.
///
/// The lines are taken in order. A line that is not valid UTF-8 ends the scan
/// as a failure. Every other line is offered to the list, and the scan ends
/// as soon as the list is full. The result is the list at the end and whether
/// the scan ended without a failure.
pub open spec fn collect(found: Seq<MatchView>, lines: Seq<(u64, Seq<u8>)>) -> (
    Seq<MatchView>,
    bool,
)
    decreases lines.len(),
{
    if lines.len() == 0 {
        (found, true)
    } else if !valid_utf8(lines[0].1) {
        (found, false)
    } else {
        let next = offered(found, lines[0].0, decode_utf8(lines[0].1));
        if has_room(next) {
            collect(next, lines.drop_first())
        } else {
            (next, true)
        }
    }
}

/// What a scan of a file with contents `contents` reports: the matches that
/// were collected, or nothing at all if a matching line could not be decoded
/// before the list was full.
pub open spec fn file_matches(matcher: MatcherSpec, contents: Seq<u8>) -> Seq<MatchView> {
    let scanned = collect(
        Seq::empty(),
        reported_lines(
            matcher.pattern,
            matcher.case_insensitive,
            matcher.whole_word,
            matcher.literal,
            contents,
        ),
    );
    if scanned.1 {
        scanned.0
    } else {
        Seq::empty()
    }
}

/// A list of matches is bounded when it holds no more than
/// [`MAX_MATCHES_PER_FILE`] matches and each of them is well formed.
pub open spec fn bounded(found: Seq<MatchView>) -> bool {
    &&& found.len() <= MAX_MATCHES_PER_FILE
    &&& forall|i: int| 0 <= i < found.len() ==> (#[trigger] found[i]).wf()
}

/// Offering a line keeps a bounded list bounded.
pub proof fn lemma_offered_bounded(found: Seq<MatchView>, line_number: u64, line_text: Seq<char>)
    requires
        bounded(found),
    ensures
        bounded(offered(found, line_number, line_text)),
{
}

/// A scan keeps a bounded list bounded, whatever lines it is run over.
pub proof fn lemma_collect_bounded(found: Seq<MatchView>, lines: Seq<(u64, Seq<u8>)>)
    requires
        bounded(found),
    ensures
        bounded(collect(found, lines).0),
    decreases lines.len(),
{
    if lines.len() != 0 && valid_utf8(lines[0].1) {
        let next = offered(found, lines[0].0, decode_utf8(lines[0].1));
        lemma_offered_bounded(found, lines[0].0, decode_utf8(lines[0].1));
        if has_room(next) {
            lemma_collect_bounded(next, lines.drop_first());
        }
    }
}

/// Whatever the engine reports for a file, what is kept of it is bounded: no
/// more than [`MAX_MATCHES_PER_FILE`] matches, none of them longer than
/// [`MAX_LINE_BYTES`] bytes.
pub proof fn lemma_file_matches_bounded(matcher: MatcherSpec, contents: Seq<u8>)
    ensures
        bounded(file_matches(matcher, contents)),
{
    lemma_collect_bounded(
        Seq::empty(),
        reported_lines(
            matcher.pattern,
            matcher.case_insensitive,
            matcher.whole_word,
            matcher.literal,
            contents,
        ),
    );
}

/// Whether a reported line is short enough to be kept: it has no more than
/// [`MAX_LINE_BYTES`] bytes.
pub open spec fn is_short(line: (u64, Seq<u8>)) -> bool {
    line.1.len() <= MAX_LINE_BYTES
}

/// The match that a reported line makes once it is decoded.
pub open spec fn as_match(line: (u64, Seq<u8>)) -> MatchView {
    MatchView { line_number: line.0, line_text: decode_utf8(line.1) }
}

/// A scan over lines that are all valid UTF-8 extends the list by the short
/// ones among them, in order, until the list is full.
pub proof fn lemma_collect_decodable(found: Seq<MatchView>, lines: Seq<(u64, Seq<u8>)>)
    requires
        has_room(found),
        forall|i: int| 0 <= i < lines.len() ==> valid_utf8(#[trigger] lines[i].1),
    ensures
        collect(found, lines) == (
            first_n(
                found + lines.filter(|l: (u64, Seq<u8>)| is_short(l)).map_values(
                    |l: (u64, Seq<u8>)| as_match(l),
                ),
                MAX_MATCHES_PER_FILE as nat,
            ),
            true,
        ),
    decreases lines.len(),
{
    let short = |l: (u64, Seq<u8>)| is_short(l);
    let decoded = |l: (u64, Seq<u8>)| as_match(l);
    if lines.len() == 0 {
        reveal(Seq::filter);
        assert(found + lines.filter(short).map_values(decoded) =~= found);
    } else {
        let line = lines[0];
        let rest = lines.drop_first();
        assert(valid_utf8(line.1));
        decode_utf8_encode_utf8(line.1);
        let next = offered(found, line.0, decode_utf8(line.1));
        // What is kept of the lines is what is kept of the first, then what
        // is kept of the rest.
        assert(lines =~= seq![line] + rest);
        Seq::filter_distributes_over_add(seq![line], rest, short);
        assert(seq![line].filter(short) =~= if is_short(line) {
            seq![line]
        } else {
            Seq::empty()
        }) by {
            reveal(Seq::filter);
            assert(seq![line].drop_last() =~= Seq::<(u64, Seq<u8>)>::empty());
            assert(seq![line].drop_last().filter(short) =~= Seq::<(u64, Seq<u8>)>::empty());
        }
        let kept = lines.filter(short).map_values(decoded);
        let kept_of_rest = rest.filter(short).map_values(decoded);
        assert(found + kept =~= next + kept_of_rest);
        if has_room(next) {
            assert forall|i: int| 0 <= i < rest.len() implies valid_utf8(#[trigger] rest[i].1) by {
                assert(rest[i] == lines[i + 1]);
            }
            lemma_collect_decodable(next, rest);
        } else {
            assert(first_n(next + kept_of_rest, MAX_MATCHES_PER_FILE as nat) =~= next);
        }
    }
}

/// The matches of one file while and after it is scanned.
pub struct MatchList {
    found: Vec<SearchMatch>,
}

impl View for MatchList {
    type V = Seq<MatchView>;

    closed spec fn view(&self) -> Seq<MatchView> {
        match_views(self.found@)
    }
}

impl MatchList {
    #[verifier::type_invariant]
    spec fn inv(self) -> bool {
        bounded(match_views(self.found@))
    }

    /// An empty list.
    pub fn new() -> (list: MatchList)
        ensures
            list@ == Seq::<MatchView>::empty(),
    {
        MatchList { found: Vec::new() }
    }

    /// Number of matches in the list.
    pub fn len(&self) -> (n: usize)
        ensures
            n == self@.len(),
            n <= MAX_MATCHES_PER_FILE,
    {
        proof {
            use_type_invariant(self);
        }
        self.found.len()
    }

    /// Whether the list holds no match.
    pub fn is_empty(&self) -> (empty: bool)
        ensures
            empty == (self@.len() == 0),
    {
        self.found.len() == 0
    }

    /// Offers one matching line to the list and says whether the scan of the
    /// file should go on.
    ///
    /// The line is kept if the list has room and the line has no more than
    /// [`MAX_LINE_BYTES`] bytes. The scan goes on as long as the list has
    /// room after that.
    pub fn offer(&mut self, line_number: u64, line_text: &str) -> (more: bool)
        ensures
            final(self)@ == offered(old(self)@, line_number, line_text@),
            more == has_room(final(self)@),
    {
        proof {
            use_type_invariant(&*self);
        }
        if self.found.len() < MAX_MATCHES_PER_FILE && line_text.as_bytes().len() <= MAX_LINE_BYTES {
            let kept = SearchMatch { line_number, line_text: line_text.to_owned() };
            // The vector is moved out, extended and moved back, so that the
            // list is well formed at every step.
            let mut taken = MatchList::new();
            core::mem::swap(self, &mut taken);
            let mut found = taken.found;
            let ghost before = found@;
            found.push(kept);
            assert(match_views(found@) =~= match_views(before).push(kept@));
            *self = MatchList { found };
        }
        self.found.len() < MAX_MATCHES_PER_FILE
    }

    /// The matches as a plain vector.
    pub fn into_vec(self) -> (matches: Vec<SearchMatch>)
        ensures
            match_views(matches@) == self@,
            bounded(match_views(matches@)),
    {
        proof {
            use_type_invariant(&self);
        }
        self.found
    }
}

/// Calls `grep_searcher::Searcher::search_slice` on a searcher in its default
/// configuration, with the compiled matcher, the haystack and a `UTF8` sink
/// whose closure passes each line to [`MatchList::offer`].
///
/// Believed of that call: the searcher visits the matching lines of the
/// haystack in order, which are the lines that `reported_lines` names. The
/// sink fails on the first visited line that is not valid UTF-8, and the
/// search then ends with an error. Every other visited line reaches the
/// closure as text together with its line number, and the search ends
/// without an error when the closure answers `false` or no line is left.
/// That is the scan that [`collect`] describes. The result says whether the
/// search ended without an error.
#[verifier::external_body]
fn run_searcher(matcher: &CompiledMatcher, haystack: &[u8], list: &mut MatchList) -> (decoded: bool)
    ensures
        (final(list)@, decoded) == collect(
            old(list)@,
            reported_lines(
                matcher@.pattern,
                matcher@.case_insensitive,
                matcher@.whole_word,
                matcher@.literal,
                haystack@,
            ),
        ),
{
    let sink = UTF8(|line_number, line_text| Ok(list.offer(line_number, line_text)));
    Searcher::new().search_slice(matcher.regex(), haystack, sink).is_ok()
}

/// Scans the contents of one file.
///
/// The result holds the first [`MAX_MATCHES_PER_FILE`] matching lines that
/// have no more than [`MAX_LINE_BYTES`] bytes, in file order. A file with a
/// matching line that cannot be decoded as UTF-8 yields no match at all,
/// unless the list was full before that line was reached.
pub fn scan_file(matcher: &CompiledMatcher, contents: &[u8]) -> (list: MatchList)
    ensures
        list@ == file_matches(matcher@, contents@),
        bounded(list@),
{
    let mut list = MatchList::new();
    proof {
        lemma_file_matches_bounded(matcher@, contents@);
    }
    let decoded = run_searcher(matcher, contents, &mut list);
    if decoded {
        list
    } else {
        MatchList::new()
    }
}

} // verus!
