//! The regular files that a scan found, put into a collection with what was
//! read of them.

use vstd::prelude::*;
use crate::entry::{ContentType, FileContentView};
use crate::filesystem::{local_entry, FileSystem};
use crate::model::{law_inserted_all, lemma_inserted_all_push, FileSystemView};
use crate::scan::{
    files_shown, law_scan_finds_only_what_is_shown, law_scan_finds_what_can_be_listed, ListingView,
    ScanView,
};

verus! {

/// What was read of a regular file: its size in bytes, and the times of its
/// last reading and last change in seconds since the epoch.
#[derive(Debug, Clone, Copy, PartialEq, Eq, Structural)]
pub struct FileFacts {
    pub length: usize,
    pub accessed: u64,
    pub modified: u64,
}

/// A regular file that a scan found, with what was read of it; `None` where
/// nothing could be read.
#[derive(Debug)]
pub struct FoundFile {
    pub path: String,
    pub facts: Option<FileFacts>,
}

/// What a `FoundFile` holds, as mathematical values.
pub struct FoundFileView {
    pub path: Seq<char>,
    pub facts: Option<FileFacts>,
}

impl View for FoundFile {
    type V = FoundFileView;

    open spec fn view(&self) -> FoundFileView {
        FoundFileView { path: self.path@, facts: self.facts }
    }
}

/// The views of a list of found files, in order.
pub open spec fn found_views(list: Seq<FoundFile>) -> Seq<FoundFileView> {
    Seq::new(list.len(), |i: int| list[i]@)
}

/// The entry of a found file, for a file of which the facts were read.
pub open spec fn entry_found() -> spec_fn(FoundFileView) -> Option<FileContentView> {
    |file: FoundFileView|
        match file.facts {
            Some(facts) => Some(
                local_entry(file.path, facts.length, facts.accessed, facts.modified),
            ),
            None => None,
        }
}

/// The entries of the found files of which the facts were read, in order.
pub open spec fn local_entries(found: Seq<FoundFileView>) -> Seq<FileContentView> {
    found.filter_map(entry_found())
}

/// Every found file of which the facts were read is held after the found
/// files are put in, as a regular file unless its path was held before; what
/// was not read of one file leaves the others as they are. Whatever came in
/// is the entry of a found file.
pub proof fn law_local_files_are_held(v: FileSystemView, found: Seq<FoundFileView>)
    requires
        v.wf(),
    ensures
        v.inserted_all(local_entries(found)).wf(),
        forall|i: int|
            0 <= i < found.len() && (#[trigger] found[i]).facts is Some ==> v.inserted_all(
                local_entries(found),
            ).has(found[i].path),
        forall|k: int|
            v.entries.len() <= k < v.inserted_all(local_entries(found)).entries.len() ==> {
                let entry = #[trigger] v.inserted_all(local_entries(found)).entries[k];
                &&& entry.content_type == ContentType::FILE
                &&& exists|i: int|
                    0 <= i < found.len() && (#[trigger] found[i]).path == entry.path
                        && found[i].facts is Some
            },
{
    let entries = local_entries(found);
    let after = v.inserted_all(entries);
    law_inserted_all(v, entries);
    lemma_local_entries(found);
    assert forall|i: int|
        0 <= i < found.len() && (#[trigger] found[i]).facts is Some implies after.has(
        found[i].path,
    ) by {
        let facts = found[i].facts->0;
        let entry = local_entry(found[i].path, facts.length, facts.accessed, facts.modified);
        assert(entries.contains(entry));
        let j = choose|j: int| 0 <= j < entries.len() && entries[j] == entry;
        assert(after.has(entries[j].path));
    }
    assert forall|k: int| v.entries.len() <= k < after.entries.len() implies {
        let entry = #[trigger] after.entries[k];
        &&& entry.content_type == ContentType::FILE
        &&& exists|i: int|
            0 <= i < found.len() && (#[trigger] found[i]).path == entry.path && found[i].facts
                is Some
    } by {
        let entry = after.entries[k];
        assert(entries.contains(entry));
        let j = choose|j: int| 0 <= j < entries.len() && entries[j] == entry;
        assert(entries[j] == entry);
    }
}

/// The entries of found files are exactly those of the files of which the
/// facts were read.
pub proof fn lemma_local_entries(found: Seq<FoundFileView>)
    ensures
        forall|i: int|
            0 <= i < found.len() && (#[trigger] found[i]).facts is Some ==> local_entries(
                found,
            ).contains(
                local_entry(
                    found[i].path,
                    found[i].facts->0.length,
                    found[i].facts->0.accessed,
                    found[i].facts->0.modified,
                ),
            ),
        forall|j: int|
            0 <= j < local_entries(found).len() ==> {
                let entry = #[trigger] local_entries(found)[j];
                &&& entry.content_type == ContentType::FILE
                &&& exists|i: int|
                    0 <= i < found.len() && (#[trigger] found[i]).path == entry.path
                        && found[i].facts is Some
            },
    decreases found.len(),
{
    if found.len() > 0 {
        let before = found.drop_last();
        let last = found.last();
        lemma_local_entries(before);
        let entries = local_entries(found);
        let earlier = local_entries(before);
        assert forall|i: int|
            0 <= i < found.len() && (#[trigger] found[i]).facts is Some implies entries.contains(
            local_entry(
                found[i].path,
                found[i].facts->0.length,
                found[i].facts->0.accessed,
                found[i].facts->0.modified,
            ),
        ) by {
            let entry = local_entry(
                found[i].path,
                found[i].facts->0.length,
                found[i].facts->0.accessed,
                found[i].facts->0.modified,
            );
            if i < before.len() {
                assert(before[i] == found[i]);
                let j = choose|j: int| 0 <= j < earlier.len() && earlier[j] == entry;
                assert(entries[j] == entry);
            } else {
                assert(entries[earlier.len() as int] == entry);
            }
        }
        assert forall|j: int| 0 <= j < entries.len() implies {
            let entry = #[trigger] entries[j];
            &&& entry.content_type == ContentType::FILE
            &&& exists|i: int|
                0 <= i < found.len() && (#[trigger] found[i]).path == entry.path && found[i].facts
                    is Some
        } by {
            let entry = entries[j];
            if j < earlier.len() {
                assert(earlier[j] == entry);
                let i = choose|i: int|
                    0 <= i < before.len() && (#[trigger] before[i]).path == entry.path
                        && before[i].facts is Some;
                assert(found[i] == before[i]);
            } else {
                assert(found[found.len() - 1].path == entry.path);
            }
        }
    }
}

/// Partial failure, from the scan to the collection. A scan has come to its
/// end, and the files that it found are put in with what was read of them.
/// Then every regular file is held that the listing of a directory shows, for
/// each directory that the scan had to list, provided the facts of the file
/// were read: whatever the listings of the other directories gave, and
/// whether they failed or not.
pub proof fn law_readable_files_are_held(
    v: FileSystemView,
    s: ScanView,
    listings: spec_fn(Seq<char>) -> ListingView,
    steps: nat,
    reached: nat,
    found: Seq<FoundFileView>,
    folder: Seq<char>,
    file: Seq<char>,
)
    requires
        v.wf(),
        s.run(listings, steps).pending.len() == 0,
        found.len() == s.run(listings, steps).files.len(),
        forall|i: int|
            0 <= i < found.len() ==> (#[trigger] found[i]).path == s.run(listings, steps).files[i],
        forall|i: int|
            0 <= i < found.len() && (#[trigger] found[i]).path == file ==> found[i].facts is Some,
        reached <= steps,
        s.run(listings, reached).pending.contains(folder),
        files_shown(listings(folder)).contains(file),
    ensures
        v.inserted_all(local_entries(found)).wf(),
        v.inserted_all(local_entries(found)).has(file),
{
    let end = s.run(listings, steps);
    law_scan_finds_what_can_be_listed(s, listings, steps, reached, folder, file);
    let at = choose|at: int| 0 <= at < end.files.len() && end.files[at] == file;
    assert(found[at].path == file);
    law_local_files_are_held(v, found);
}

/// A directory that could not be listed adds nothing. A scan starts with no
/// file found and has come to its end, and the files that it found are put in
/// with what was read of them. Then whatever came in is a regular file that
/// the listing of some directory shows, and that listing did not fail.
pub proof fn law_only_shown_files_are_held(
    v: FileSystemView,
    s: ScanView,
    listings: spec_fn(Seq<char>) -> ListingView,
    steps: nat,
    found: Seq<FoundFileView>,
)
    requires
        v.wf(),
        s.files.len() == 0,
        found.len() == s.run(listings, steps).files.len(),
        forall|i: int|
            0 <= i < found.len() ==> (#[trigger] found[i]).path == s.run(listings, steps).files[i],
    ensures
        forall|k: int|
            v.entries.len() <= k < v.inserted_all(local_entries(found)).entries.len() ==> {
                let entry = #[trigger] v.inserted_all(local_entries(found)).entries[k];
                &&& entry.content_type == ContentType::FILE
                &&& exists|folder: Seq<char>|
                    (#[trigger] listings(folder)) is Seen && files_shown(
                        listings(folder),
                    ).contains(entry.path)
            },
{
    let end = s.run(listings, steps);
    let after = v.inserted_all(local_entries(found));
    law_local_files_are_held(v, found);
    assert forall|k: int| v.entries.len() <= k < after.entries.len() implies {
        let entry = #[trigger] after.entries[k];
        &&& entry.content_type == ContentType::FILE
        &&& exists|folder: Seq<char>|
            (#[trigger] listings(folder)) is Seen && files_shown(listings(folder)).contains(
                entry.path,
            )
    } by {
        let entry = after.entries[k];
        let i = choose|i: int|
            0 <= i < found.len() && (#[trigger] found[i]).path == entry.path && found[i].facts
                is Some;
        assert(end.files[i] == entry.path);
        law_scan_finds_only_what_is_shown(s, listings, steps, entry.path);
    }
}

impl FileSystem {
    /// Puts in the regular files that a scan found, each with its size and
    /// its times, in the order in which they were found. A file of which
    /// nothing could be read is left out in silence, and so is one whose path
    /// is held already. The directories above the files are not added.
    pub fn get_local_files(&mut self, found: Vec<FoundFile>)
        requires
            old(self).wf(),
        ensures
            final(self).wf(),
            final(self)@ == old(self)@.inserted_all(local_entries(found_views(found@))),
    {
        let ghost before = self@;
        let ghost all = found_views(found@);
        let mut i: usize = 0;
        assert(all.take(0) =~= Seq::empty());
        while i < found.len()
            invariant
                i <= found@.len(),
                all == found_views(found@),
                self.wf(),
                self@ == before.inserted_all(local_entries(all.take(i as int))),
            decreases found@.len() - i,
        {
            let ghost done = local_entries(all.take(i as int));
            proof {
                assert(all.take(i + 1).drop_last() =~= all.take(i as int));
                assert(all.take(i + 1).last() == found@[i as int]@);
            }
            match found[i].facts {
                Some(facts) => {
                    self.add_local_file(
                        found[i].path.as_str(),
                        facts.length,
                        facts.accessed,
                        facts.modified,
                    );
                    proof {
                        let entry = local_entry(
                            found@[i as int]@.path,
                            facts.length,
                            facts.accessed,
                            facts.modified,
                        );
                        assert(local_entries(all.take(i + 1)) =~= done.push(entry));
                        lemma_inserted_all_push(before, done, entry);
                    }
                },
                None => {},
            }
            i = i + 1;
        }
        assert(all.take(i as int) =~= all);
    }
}

} // verus!
