//! Ordering the accepted results by path.

use crate::lexical::{
    lemma_text_le_antisymmetric, lemma_text_le_total, lemma_text_le_transitive, str_precedes,
    text_le,
};
use crate::search::models::{FileResult, FileResultView};
use crate::sequences::{
    lemma_filter_map_values, lemma_filter_none, lemma_map_values_same_elements,
    lemma_same_elements,
};
use crate::sorting::{of_rank, same_rank, sort_ranked, Ranked};
use vstd::prelude::*;

verus! {

/// Views of a sequence of file results, in order.
pub open spec fn file_views(results: Seq<FileResult>) -> Seq<FileResultView> {
    results.map_values(|r: FileResult| r@)
}

/// Whether the paths of `results` ascend in byte order, equal paths allowed.
pub open spec fn paths_ascending(results: Seq<FileResultView>) -> bool {
    forall|i: int, j: int|
        0 <= i < j < results.len() ==> text_le(
            (#[trigger] results[i]).path,
            (#[trigger] results[j]).path,
        )
}

/// Whether no two of `results` have the same path.
pub open spec fn paths_distinct(results: Seq<FileResultView>) -> bool {
    forall|i: int, j: int|
        0 <= i < j < results.len() ==> (#[trigger] results[i]).path != (#[trigger] results[j]).path
}

/// Whether the paths of `results` ascend in byte order and no path occurs
/// twice.
pub open spec fn paths_strictly_ascending(results: Seq<FileResultView>) -> bool {
    forall|i: int, j: int|
        0 <= i < j < results.len() ==> !text_le(
            (#[trigger] results[j]).path,
            (#[trigger] results[i]).path,
        )
}

/// File results are ranked by their paths, compared byte by byte.
impl Ranked for FileResult {
    open spec fn rank_le(&self, other: &Self) -> bool {
        text_le(self@.path, other@.path)
    }

    fn precedes(&self, other: &Self) -> (le: bool) {
        str_precedes(self.path.as_str(), other.path.as_str())
    }

    proof fn lemma_rank_total(a: &Self, b: &Self) {
        lemma_text_le_total(a@.path, b@.path);
    }

    proof fn lemma_rank_transitive(a: &Self, b: &Self, c: &Self) {
        lemma_text_le_transitive(a@.path, b@.path, c@.path);
    }
}

/// Ascending results without a repeated path ascend strictly, and the other
/// way round.
pub proof fn lemma_strictly_ascending(results: Seq<FileResultView>)
    ensures
        paths_strictly_ascending(results) <==> paths_ascending(results) && paths_distinct(results),
{
    if paths_strictly_ascending(results) {
        assert forall|i: int, j: int| 0 <= i < j < results.len() implies text_le(
            (#[trigger] results[i]).path,
            (#[trigger] results[j]).path,
        ) && results[i].path != results[j].path by {
            lemma_text_le_total(results[i].path, results[j].path);
            crate::lexical::lemma_bytes_le_reflexive(vstd::utf8::encode_utf8(results[i].path));
        }
    }
    if paths_ascending(results) && paths_distinct(results) {
        assert forall|i: int, j: int| 0 <= i < j < results.len() implies !text_le(
            (#[trigger] results[j]).path,
            (#[trigger] results[i]).path,
        ) by {
            if text_le(results[j].path, results[i].path) {
                lemma_text_le_antisymmetric(results[i].path, results[j].path);
            }
        }
    }
}

/// A rearrangement of results with distinct paths has distinct paths.
pub proof fn lemma_permuted_distinct(
    results: Seq<FileResultView>,
    rearranged: Seq<FileResultView>,
)
    requires
        paths_distinct(results),
        rearranged.to_multiset() == results.to_multiset(),
    ensures
        paths_distinct(rearranged),
{
    lemma_same_elements(rearranged, results);
    assert forall|i: int, j: int| 0 <= i < j < rearranged.len() implies (
    #[trigger] rearranged[i]).path != (#[trigger] rearranged[j]).path by {
        if rearranged[i].path == rearranged[j].path {
            let x = rearranged[i];
            let y = rearranged[j];
            assert(rearranged.contains(x));
            assert(rearranged.contains(y));
            let a = choose|a: int| 0 <= a < results.len() && results[a] == x;
            let b = choose|b: int| 0 <= b < results.len() && results[b] == y;
            if a != b {
                // Two places of `results` hold the same path.
                if a < b {
                    assert(results[a].path != results[b].path);
                } else {
                    assert(results[b].path != results[a].path);
                }
            } else {
                // One of the results occurs twice after rearranging.
                assert(x == y);
                vstd::seq_lib::to_multiset_remove(rearranged, i);
                vstd::seq_lib::to_multiset_contains(rearranged.remove(i), x);
                assert(rearranged.remove(i)[j - 1] == x);
                assert(rearranged.remove(i).contains(x));
                assert(rearranged.to_multiset().count(x) >= 2);
                lemma_distinct_count(results, a);
            }
        }
    }
}

/// A result among results with distinct paths occurs once.
proof fn lemma_distinct_count(results: Seq<FileResultView>, at: int)
    requires
        paths_distinct(results),
        0 <= at < results.len(),
    ensures
        results.to_multiset().count(results[at]) == 1,
{
    let x = results[at];
    vstd::seq_lib::to_multiset_remove(results, at);
    vstd::seq_lib::to_multiset_contains(results.remove(at), x);
    if results.remove(at).contains(x) {
        let k = choose|k: int| 0 <= k < results.remove(at).len() && results.remove(at)[k] == x;
        if k < at {
            assert(results[k].path != results[at].path);
        } else {
            assert(results.remove(at)[k] == results[k + 1]);
            assert(results[at].path != results[k + 1].path);
        }
    }
    vstd::seq_lib::to_multiset_contains(results, x);
    assert(results.contains(x));
}

/// The results for the file at `path`, in the order in which they stand in
/// `results`.
pub open spec fn with_path(results: Seq<FileResultView>, path: Seq<char>) -> Seq<FileResultView> {
    results.filter(|r: FileResultView| r.path == path)
}

/// Whether `outcome` keeps the results of each path in the order in which
/// they stand in `results`.
pub open spec fn keeps_arrival_order(
    outcome: Seq<FileResultView>,
    results: Seq<FileResultView>,
) -> bool {
    forall|path: Seq<char>| #[trigger] with_path(outcome, path) == with_path(results, path)
}

/// The results that have the rank of `e` are those that have its path.
proof fn lemma_of_rank_is_with_path(results: Seq<FileResult>, e: FileResult)
    ensures
        file_views(of_rank(results, e)) == with_path(file_views(results), e@.path),
{
    let path = e@.path;
    assert forall|k: int| 0 <= k < results.len() implies same_rank(#[trigger] results[k], e) == (
    results[k]@.path == path) by {
        if results[k]@.path == path {
            crate::lexical::lemma_bytes_le_reflexive(vstd::utf8::encode_utf8(path));
        }
        if same_rank(results[k], e) {
            lemma_text_le_antisymmetric(results[k]@.path, path);
        }
    }
    lemma_filter_map_values(
        results,
        |r: FileResult| r@,
        |x: FileResult| same_rank(x, e),
        |r: FileResultView| r.path == path,
    );
}

/// Sorts the accepted results by path, byte by byte.
///
/// The outcome holds the same file results as `results`, each as often;
/// their paths ascend; and results with the same path stand in the order in
/// which they stood in `results`. If no path occurs twice in `results`, none
/// does in the outcome.
pub fn finalize(results: Vec<FileResult>) -> (outcome: Vec<FileResult>)
    ensures
        paths_ascending(file_views(outcome@)),
        file_views(outcome@).to_multiset() == file_views(results@).to_multiset(),
        keeps_arrival_order(file_views(outcome@), file_views(results@)),
        paths_distinct(file_views(results@)) ==> paths_strictly_ascending(file_views(outcome@)),
{
    let outcome = sort_ranked(results);
    proof {
        lemma_map_values_same_elements(outcome@, results@, |r: FileResult| r@);
        if paths_distinct(file_views(results@)) {
            lemma_permuted_distinct(file_views(results@), file_views(outcome@));
        }
        assert forall|i: int, j: int| 0 <= i < j < outcome@.len() implies text_le(
            (#[trigger] file_views(outcome@)[i]).path,
            (#[trigger] file_views(outcome@)[j]).path,
        ) by {
            assert(outcome@[i].rank_le(&outcome@[j]));
        }
        lemma_same_elements(outcome@, results@);
        assert forall|path: Seq<char>| #[trigger]
            with_path(file_views(outcome@), path) == with_path(file_views(results@), path) by {
            if exists|k: int| 0 <= k < results@.len() && (#[trigger] results@[k])@.path == path {
                let k = choose|k: int|
                    0 <= k < results@.len() && (#[trigger] results@[k])@.path == path;
                let e = results@[k];
                assert(of_rank(outcome@, e) == of_rank(results@, e));
                lemma_of_rank_is_with_path(outcome@, e);
                lemma_of_rank_is_with_path(results@, e);
            } else {
                let wanted = |r: FileResultView| r.path == path;
                assert forall|k: int| 0 <= k < file_views(outcome@).len() implies !wanted(
                    #[trigger] file_views(outcome@)[k],
                ) by {
                    assert(outcome@.contains(outcome@[k]));
                    assert(results@.contains(outcome@[k]));
                }
                lemma_filter_none(file_views(outcome@), wanted);
                lemma_filter_none(file_views(results@), wanted);
            }
        }
        lemma_strictly_ascending(file_views(outcome@));
    }
    outcome
}

} // verus!
