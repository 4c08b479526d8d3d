//! The search as a whole: compile, scan, gather, order.

use crate::search::aggregator::{admitted, within_caps, Aggregator};
use crate::search::finalizer::{
    file_views, keeps_arrival_order, paths_ascending, paths_distinct, paths_strictly_ascending,
};
use crate::search::matcher::{
    compile_matcher, pattern_accepted, pattern_rejection, CompiledMatcher, MatcherSpec,
    SearchError,
};
use crate::search::models::{FileResult, FileResultView, MAX_FILE_RESULTS};
use crate::search::scanner::{file_matches, lemma_file_matches_bounded, scan_file};
use crate::sequences::first_n;
use vstd::prelude::*;

verus! {

/// A candidate file: a regular file that the tree walk found, with what was
/// read from it.
#[derive(Debug, Clone)]
pub struct SourceFile {
    /// Path of the file as the tree walk produced it.
    pub path: String,
    /// The bytes of the file.
    pub contents: Vec<u8>,
}

/// Mathematical value of a [`SourceFile`].
pub struct SourceFileView {
    pub path: Seq<char>,
    pub contents: Seq<u8>,
}

impl View for SourceFile {
    type V = SourceFileView;

    open spec fn view(&self) -> SourceFileView {
        SourceFileView { path: self.path@, contents: self.contents@ }
    }
}

/// Views of a sequence of candidate files, in order.
pub open spec fn source_views(files: Seq<SourceFile>) -> Seq<SourceFileView> {
    files.map_values(|f: SourceFile| f@)
}

/// Whether no two of `files` have the same path.
pub open spec fn sources_distinct(files: Seq<SourceFileView>) -> bool {
    forall|i: int, j: int|
        0 <= i < j < files.len() ==> (#[trigger] files[i]).path != (#[trigger] files[j]).path
}

/// Whether the scan of `file` finds a match.
pub open spec fn has_match(matcher: MatcherSpec, file: SourceFileView) -> bool {
    file_matches(matcher, file.contents).len() > 0
}

/// What `file` contributes to the outcome: its path and its matches.
pub open spec fn result_of(matcher: MatcherSpec, file: SourceFileView) -> FileResultView {
    FileResultView { path: file.path, matches: file_matches(matcher, file.contents) }
}

/// The results that are accepted when `files` are scanned one after the
/// other, in the order of their acceptance: those of the first
/// [`MAX_FILE_RESULTS`] files that have a match.
pub open spec fn gathered(matcher: MatcherSpec, files: Seq<SourceFileView>) -> Seq<FileResultView> {
    first_n(
        files.filter(|f: SourceFileView| has_match(matcher, f)).map_values(
            |f: SourceFileView| result_of(matcher, f),
        ),
        MAX_FILE_RESULTS as nat,
    )
}

/// Scanning one more file is handing its matches to an aggregator that holds
/// what was gathered from the files before it.
pub proof fn lemma_gathered_step(matcher: MatcherSpec, files: Seq<SourceFileView>)
    requires
        files.len() > 0,
    ensures
        gathered(matcher, files) == admitted(
            gathered(matcher, files.drop_last()),
            files.last().path,
            file_matches(matcher, files.last().contents),
        ),
{
    reveal(Seq::filter);
    let matching = |f: SourceFileView| has_match(matcher, f);
    let result = |f: SourceFileView| result_of(matcher, f);
    let before = files.drop_last().filter(matching).map_values(result);
    let all = files.filter(matching).map_values(result);
    if has_match(matcher, files.last()) {
        assert(all =~= before.push(result_of(matcher, files.last())));
        assert(gathered(matcher, files) =~= admitted(
            gathered(matcher, files.drop_last()),
            files.last().path,
            file_matches(matcher, files.last().contents),
        ));
    } else {
        assert(all =~= before);
    }
}

/// Nothing is gathered from no files.
pub proof fn lemma_gathered_empty(matcher: MatcherSpec)
    ensures
        gathered(matcher, Seq::empty()) == Seq::<FileResultView>::empty(),
{
    reveal(Seq::filter);
    assert(gathered(matcher, Seq::empty()) =~= Seq::<FileResultView>::empty());
}

/// Both caps hold of what is gathered from any files: no more than
/// [`MAX_FILE_RESULTS`] results, each with at least one and at most
/// `MAX_MATCHES_PER_FILE` matches, none of them a line of more than
/// `MAX_LINE_BYTES` bytes.
pub proof fn lemma_gathered_within_caps(matcher: MatcherSpec, files: Seq<SourceFileView>)
    ensures
        within_caps(gathered(matcher, files)),
    decreases files.len(),
{
    if files.len() == 0 {
        lemma_gathered_empty(matcher);
    } else {
        lemma_gathered_within_caps(matcher, files.drop_last());
        lemma_file_matches_bounded(matcher, files.last().contents);
        lemma_gathered_step(matcher, files);
    }
}

/// Every gathered result has the path of one of the files.
pub proof fn lemma_gathered_paths(matcher: MatcherSpec, files: Seq<SourceFileView>)
    ensures
        forall|i: int|
            0 <= i < gathered(matcher, files).len() ==> exists|k: int|
                0 <= k < files.len() && (#[trigger] files[k]).path == (#[trigger] gathered(
                    matcher,
                    files,
                )[i]).path,
    decreases files.len(),
{
    if files.len() == 0 {
        lemma_gathered_empty(matcher);
    } else {
        let rest = files.drop_last();
        lemma_gathered_paths(matcher, rest);
        lemma_gathered_step(matcher, files);
        let g = gathered(matcher, files);
        let before = gathered(matcher, rest);
        assert forall|i: int| 0 <= i < g.len() implies exists|k: int|
            0 <= k < files.len() && (#[trigger] files[k]).path == (#[trigger] g[i]).path by {
            if i < before.len() {
                assert(g[i] == before[i]);
                let k = choose|k: int|
                    0 <= k < rest.len() && (#[trigger] rest[k]).path == before[i].path;
                assert(files[k] == rest[k]);
            } else {
                assert(files[files.len() - 1].path == g[i].path);
            }
        }
    }
}

/// Files with distinct paths give results with distinct paths.
pub proof fn lemma_gathered_distinct(matcher: MatcherSpec, files: Seq<SourceFileView>)
    requires
        sources_distinct(files),
    ensures
        paths_distinct(gathered(matcher, files)),
    decreases files.len(),
{
    if files.len() == 0 {
        lemma_gathered_empty(matcher);
    } else {
        let rest = files.drop_last();
        assert(sources_distinct(rest)) by {
            assert forall|i: int, j: int| 0 <= i < j < rest.len() implies (#[trigger] rest[i]).path
                != (#[trigger] rest[j]).path by {
                assert(files[i] == rest[i]);
                assert(files[j] == rest[j]);
            }
        }
        lemma_gathered_distinct(matcher, rest);
        lemma_gathered_paths(matcher, rest);
        lemma_gathered_step(matcher, files);
        let g = gathered(matcher, files);
        let before = gathered(matcher, rest);
        assert forall|i: int, j: int| 0 <= i < j < g.len() implies (#[trigger] g[i]).path != (
        #[trigger] g[j]).path by {
            if j < before.len() {
                assert(g[i] == before[i]);
                assert(g[j] == before[j]);
            } else {
                assert(g[i] == before[i]);
                let k = choose|k: int|
                    0 <= k < rest.len() && (#[trigger] rest[k]).path == before[i].path;
                assert(files[k] == rest[k]);
                assert(files[k].path != files[files.len() - 1].path);
            }
        }
    }
}

/// Once [`MAX_FILE_RESULTS`] results are gathered, further files change
/// nothing.
pub proof fn lemma_gathered_full(matcher: MatcherSpec, files: Seq<SourceFileView>, n: int)
    requires
        0 <= n <= files.len(),
        n == files.len() || gathered(matcher, files.take(n)).len() >= MAX_FILE_RESULTS,
    ensures
        gathered(matcher, files) == gathered(matcher, files.take(n)),
    decreases files.len() - n,
{
    if n == files.len() {
        assert(files.take(n) =~= files);
    } else {
        assert(files.take(n + 1).drop_last() =~= files.take(n));
        lemma_gathered_step(matcher, files.take(n + 1));
        lemma_gathered_full(matcher, files, n + 1);
    }
}

/// Starts a search: compiles the query and looks at the root.
///
/// `root` says whether the root of the search can be read, and why not if it
/// cannot. The pattern is compiled first, so an invalid pattern fails the
/// search whatever the root is like, with the engine's description of what
/// is wrong with it; an unreadable root fails it next, with the reason given.
pub fn prepare(
    root: Result<(), String>,
    query: &str,
    case_sensitive: bool,
    whole_word: bool,
    is_regex: bool,
) -> (ready: Result<CompiledMatcher, SearchError>)
    ensures
        ready is Ok <==> root is Ok && pattern_accepted(
            query@,
            !case_sensitive,
            whole_word,
            !is_regex,
        ),
        ready matches Ok(matcher) ==> matcher@ == (MatcherSpec {
            pattern: query@,
            case_insensitive: !case_sensitive,
            whole_word,
            literal: !is_regex,
        }),
        ready matches Err(SearchError::InvalidPattern { .. }) <==> !pattern_accepted(
            query@,
            !case_sensitive,
            whole_word,
            !is_regex,
        ),
        ready matches Err(SearchError::InvalidPattern { message }) ==> pattern_rejection(
            query@,
            !case_sensitive,
            whole_word,
            !is_regex,
        ) == Some(message@),
        ready matches Err(SearchError::RootAccess { message }) ==> root matches Err(reason)
            && message@ == reason@,
{
    let matcher = match compile_matcher(query, case_sensitive, whole_word, is_regex) {
        Ok(matcher) => matcher,
        Err(error) => {
            return Err(error);
        },
    };
    match root {
        Ok(()) => Ok(matcher),
        Err(reason) => Err(SearchError::RootAccess { message: reason }),
    }
}

/// Searches the candidate files under a root.
///
/// `root` is what the tree walk found: the regular files under the root that
/// are neither hidden nor ignored, or the reason why the root could not be
/// read. The search fails as [`prepare`] does. Otherwise the files are
/// scanned in the given order, each file with a match is accepted until
/// [`MAX_FILE_RESULTS`] files are, and the accepted results are returned in
/// ascending order of their paths. Should a path occur more than once, its
/// results stand in the order of the files.
pub fn search(
    root: Result<Vec<SourceFile>, String>,
    query: &str,
    case_sensitive: bool,
    whole_word: bool,
    is_regex: bool,
) -> (outcome: Result<Vec<FileResult>, SearchError>)
    ensures
        outcome is Ok <==> root is Ok && pattern_accepted(
            query@,
            !case_sensitive,
            whole_word,
            !is_regex,
        ),
        outcome matches Err(SearchError::InvalidPattern { .. }) <==> !pattern_accepted(
            query@,
            !case_sensitive,
            whole_word,
            !is_regex,
        ),
        outcome matches Err(SearchError::InvalidPattern { message }) ==> pattern_rejection(
            query@,
            !case_sensitive,
            whole_word,
            !is_regex,
        ) == Some(message@),
        outcome matches Err(SearchError::RootAccess { message }) ==> root matches Err(reason)
            && message@ == reason@,
        outcome matches Ok(results) ==> root matches Ok(files) && {
            let accepted = gathered(
                MatcherSpec {
                    pattern: query@,
                    case_insensitive: !case_sensitive,
                    whole_word,
                    literal: !is_regex,
                },
                source_views(files@),
            );
            &&& file_views(results@).to_multiset() == accepted.to_multiset()
            &&& paths_ascending(file_views(results@))
            &&& keeps_arrival_order(file_views(results@), accepted)
            &&& within_caps(file_views(results@))
            &&& sources_distinct(source_views(files@)) ==> paths_strictly_ascending(
                file_views(results@),
            )
        },
{
    let (readable, files) = match root {
        Ok(files) => (Ok(()), files),
        Err(reason) => (Err(reason), Vec::new()),
    };
    let matcher = match prepare(readable, query, case_sensitive, whole_word, is_regex) {
        Ok(matcher) => matcher,
        Err(error) => {
            return Err(error);
        },
    };
    let mut aggregator = Aggregator::new();
    let mut i: usize = 0;
    let ghost sources = source_views(files@);
    proof {
        assert(sources.take(0) =~= Seq::<SourceFileView>::empty());
        lemma_gathered_empty(matcher@);
    }
    while i < files.len() && !aggregator.is_full()
        invariant
            i <= files.len(),
            sources == source_views(files@),
            aggregator@ == gathered(matcher@, sources.take(i as int)),
        decreases files.len() - i,
    {
        proof {
            assert(sources.take(i + 1).drop_last() =~= sources.take(i as int));
            assert(sources.take(i + 1).last() == files@[i as int]@);
            lemma_gathered_step(matcher@, sources.take(i + 1));
        }
        let file = &files[i];
        let matches = scan_file(&matcher, file.contents.as_slice());
        aggregator.offer(file.path.clone(), matches);
        i += 1;
    }
    proof {
        // Once the cap is reached, the files that are left change nothing.
        lemma_gathered_full(matcher@, sources, i as int);
        if sources_distinct(sources) {
            lemma_gathered_distinct(matcher@, sources);
        }
    }
    Ok(aggregator.finish())
}

} // verus!
