//! Which entries of a directory are listed, and in which order.

use crate::filesystem::models::{EntryView, FileEntry};
use crate::lexical::{lemma_text_le_total, lemma_text_le_transitive, str_precedes, text_le};
use crate::sorting::{keeps_order, ranked, sort_ranked, Ranked};
use vstd::prelude::*;
use vstd::string::StrSliceExecFns;

verus! {

/// The text with each of its characters in lower case, as Unicode defines it.
pub uninterp spec fn lowercased(text: Seq<char>) -> Seq<char>;

/// Calls `str::to_lowercase`, which returns the lower case equivalent of the
/// string as a new string. The result depends on the string alone, and
/// [`lowercased`] is its name.
#[verifier::external_body]
fn to_lowercase(text: &str) -> (lower: String)
    ensures
        lower@ == lowercased(text@),
{
    text.to_lowercase()
}

/// Whether an entry of this name is hidden: the name begins with a dot.
pub open spec fn is_hidden(name: Seq<char>) -> bool {
    name.len() > 0 && name[0] == '.'
}

/// Decides [`is_hidden`].
pub fn hidden(name: &str) -> (yes: bool)
    ensures
        yes == is_hidden(name@),
{
    !name.is_empty() && name.get_char(0) == '.'
}

/// Whether entry `a` may stand before entry `b` in a listing: directories
/// come before files, and among entries of one kind the lower case forms of
/// the names decide, compared byte by byte.
pub open spec fn entry_le(a: EntryView, b: EntryView) -> bool {
    if a.is_dir == b.is_dir {
        text_le(lowercased(a.name), lowercased(b.name))
    } else {
        a.is_dir
    }
}

impl Ranked for FileEntry {
    open spec fn rank_le(&self, other: &Self) -> bool {
        entry_le(self@, other@)
    }

    fn precedes(&self, other: &Self) -> (le: bool) {
        if self.is_dir == other.is_dir {
            let mine = to_lowercase(self.name.as_str());
            let theirs = to_lowercase(other.name.as_str());
            str_precedes(mine.as_str(), theirs.as_str())
        } else {
            self.is_dir
        }
    }

    proof fn lemma_rank_total(a: &Self, b: &Self) {
        lemma_text_le_total(lowercased(a@.name), lowercased(b@.name));
    }

    proof fn lemma_rank_transitive(a: &Self, b: &Self, c: &Self) {
        if a.is_dir == b.is_dir && b.is_dir == c.is_dir {
            lemma_text_le_transitive(
                lowercased(a@.name),
                lowercased(b@.name),
                lowercased(c@.name),
            );
        }
    }
}

/// The entries that are not hidden, in their order.
pub open spec fn visible(entries: Seq<FileEntry>) -> Seq<FileEntry> {
    entries.filter(|e: FileEntry| !is_hidden(e@.name))
}

/// Makes the listing of a directory out of the entries that were read from
/// it.
///
/// Hidden entries are left out. Directories come first, then files, each
/// group ordered by the lower case forms of the names. Entries that this
/// order does not tell apart stay in the order in which they were read.
pub fn fs_read_dir(found: Vec<FileEntry>) -> (listing: Vec<FileEntry>)
    ensures
        ranked(listing@),
        listing@.to_multiset() == visible(found@).to_multiset(),
        keeps_order(listing@, visible(found@)),
{
    let mut shown: Vec<FileEntry> = Vec::new();
    let mut i: usize = 0;
    proof {
        reveal(Seq::filter);
        assert(found@.take(0) =~= Seq::<FileEntry>::empty());
    }
    while i < found.len()
        invariant
            i <= found.len(),
            shown@ == visible(found@.take(i as int)),
        decreases found.len() - i,
    {
        proof {
            reveal(Seq::filter);
            assert(found@.take(i + 1).drop_last() =~= found@.take(i as int));
        }
        let entry = &found[i];
        if !hidden(entry.name.as_str()) {
            shown.push(
                FileEntry {
                    name: entry.name.clone(),
                    path: entry.path.clone(),
                    is_dir: entry.is_dir,
                },
            );
        }
        i += 1;
    }
    proof {
        assert(found@.take(i as int) =~= found@);
    }
    sort_ranked(shown)
}

} // verus!
