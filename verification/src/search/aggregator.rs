//! Gathering the results of the scanned files under the global cap.
//!
//! Workers scan files in no particular order and hand what they found to one
//! [`Aggregator`]. A caller that shares an aggregator between threads wraps
//! it in a lock: a result is then accepted and counted in one step, so the
//! cap cannot be overshot.

use crate::search::finalizer::{
    file_views, finalize, keeps_arrival_order, paths_ascending, paths_distinct,
    paths_strictly_ascending,
};
use crate::search::models::{
    match_views, FileResult, FileResultView, MatchView, MAX_FILE_RESULTS,
};
use crate::search::scanner::MatchList;
use crate::sequences::lemma_same_elements;
use vstd::prelude::*;

verus! {

/// What a worker does after it has handed in a result.
#[derive(Debug, Clone, Copy, PartialEq, Eq, Structural)]
pub enum WalkDecision {
    /// Go on with the next file.
    Continue,
    /// Stop pulling work: the outcome is full.
    Quit,
}

/// Whether every file result in `results` is well formed.
pub open spec fn all_wf(results: Seq<FileResultView>) -> bool {
    forall|i: int| 0 <= i < results.len() ==> (#[trigger] results[i]).wf()
}

/// Whether `results` respects both caps: no more than [`MAX_FILE_RESULTS`]
/// files, and each of them well formed.
pub open spec fn within_caps(results: Seq<FileResultView>) -> bool {
    &&& results.len() <= MAX_FILE_RESULTS
    &&& all_wf(results)
}

/// The accepted results after the matches of the file at `path` were offered:
/// they are appended if there is at least one match and the cap on files is
/// not reached, and discarded otherwise.
pub open spec fn admitted(
    results: Seq<FileResultView>,
    path: Seq<char>,
    matches: Seq<MatchView>,
) -> Seq<FileResultView> {
    if matches.len() > 0 && results.len() < MAX_FILE_RESULTS {
        results.push(FileResultView { path, matches })
    } else {
        results
    }
}

/// The decision that goes with [`admitted`]: the worker quits when its
/// matches were discarded because the cap on files was reached.
pub open spec fn decided(results: Seq<FileResultView>, matches: Seq<MatchView>) -> WalkDecision {
    if matches.len() > 0 && results.len() >= MAX_FILE_RESULTS {
        WalkDecision::Quit
    } else {
        WalkDecision::Continue
    }
}

/// The results accepted so far, in the order in which they arrived.
pub struct Aggregator {
    results: Vec<FileResult>,
}

impl View for Aggregator {
    type V = Seq<FileResultView>;

    closed spec fn view(&self) -> Seq<FileResultView> {
        file_views(self.results@)
    }
}

impl Aggregator {
    #[verifier::type_invariant]
    spec fn inv(self) -> bool {
        within_caps(file_views(self.results@))
    }

    /// An aggregator that has accepted nothing.
    pub fn new() -> (aggregator: Aggregator)
        ensures
            aggregator@ == Seq::<FileResultView>::empty(),
    {
        Aggregator { results: Vec::new() }
    }

    /// Number of accepted results.
    pub fn len(&self) -> (n: usize)
        ensures
            n == self@.len(),
            n <= MAX_FILE_RESULTS,
    {
        proof {
            use_type_invariant(self);
        }
        self.results.len()
    }

    /// Whether the cap on files is reached. A worker asks this before it
    /// takes up a file and quits if it is.
    pub fn is_full(&self) -> (full: bool)
        ensures
            full == (self@.len() >= MAX_FILE_RESULTS),
    {
        self.results.len() >= MAX_FILE_RESULTS
    }

    /// Hands in the matches of the file at `path`.
    ///
    /// A file without a match leaves the aggregator as it is. Otherwise the
    /// result is accepted if the cap on files is not reached, and discarded
    /// if it is; the worker is told to quit in that case.
    pub fn offer(&mut self, path: String, matches: MatchList) -> (decision: WalkDecision)
        ensures
            final(self)@ == admitted(old(self)@, path@, matches@),
            decision == decided(old(self)@, matches@),
    {
        proof {
            use_type_invariant(&*self);
        }
        if matches.is_empty() {
            return WalkDecision::Continue;
        }
        if self.results.len() >= MAX_FILE_RESULTS {
            return WalkDecision::Quit;
        }
        let accepted = FileResult { path, matches: matches.into_vec() };
        // The vector is moved out, extended and moved back, so that the
        // aggregator is well formed at every step.
        let mut taken = Aggregator::new();
        core::mem::swap(self, &mut taken);
        let mut results = taken.results;
        let ghost before = results@;
        results.push(accepted);
        assert(file_views(results@) =~= file_views(before).push(accepted@));
        *self = Aggregator { results };
        WalkDecision::Continue
    }

    /// Ends the gathering and orders what was accepted by path.
    ///
    /// The outcome holds exactly the accepted results, their paths ascend,
    /// results with the same path stand as they arrived, and both caps hold
    /// of it. If every file was handed in once, no path occurs twice.
    pub fn finish(self) -> (outcome: Vec<FileResult>)
        ensures
            file_views(outcome@).to_multiset() == self@.to_multiset(),
            paths_ascending(file_views(outcome@)),
            keeps_arrival_order(file_views(outcome@), self@),
            paths_distinct(self@) ==> paths_strictly_ascending(file_views(outcome@)),
            within_caps(file_views(outcome@)),
    {
        proof {
            use_type_invariant(&self);
        }
        let ghost accepted = file_views(self.results@);
        let outcome = finalize(self.results);
        proof {
            lemma_permuted_within_caps(accepted, file_views(outcome@));
        }
        outcome
    }
}

/// Both caps hold of any rearrangement of results of which they hold.
pub proof fn lemma_permuted_within_caps(
    results: Seq<FileResultView>,
    rearranged: Seq<FileResultView>,
)
    requires
        within_caps(results),
        rearranged.to_multiset() == results.to_multiset(),
    ensures
        within_caps(rearranged),
{
    lemma_same_elements(rearranged, results);
    assert forall|i: int| 0 <= i < rearranged.len() implies (#[trigger] rearranged[i]).wf() by {
        assert(rearranged.contains(rearranged[i]));
        assert(results.contains(rearranged[i]));
        let k = choose|k: int| 0 <= k < results.len() && results[k] == rearranged[i];
        assert(results[k].wf());
    }
}

} // verus!
