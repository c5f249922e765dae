//! The decisions of a recursive scan of a directory tree. Reading the
//! directories is the caller's part: it asks which directory to list next,
//! lists it, and tells what it saw.

use vstd::prelude::*;
use vstd::string::StringExecFns;
use crate::path::texts;

verus! {

/// What was seen of one entry of a directory.
#[derive(Debug)]
pub enum Sighting {
    /// A regular file, with its path.
    File(String),
    /// A directory, with its path.
    Directory(String),
    /// Neither of the two, such as a symbolic link.
    Other(String),
    /// An entry whose kind could not be read.
    UnknownKind { path: String, detail: String },
    /// An entry that could not be read at all.
    Unreadable { detail: String },
}

/// A failure met while scanning.
#[derive(Debug)]
pub enum ScanError {
    /// A directory could not be listed.
    Folder { path: String, detail: String },
    /// An entry of a directory could not be read; the rest of that directory
    /// was left out.
    Entry { folder: String, detail: String },
    /// The kind of an entry could not be read; the entry was left out.
    Kind { path: String, detail: String },
}

/// What listing a directory gave.
#[derive(Debug)]
pub enum Listing {
    /// The directory could not be listed.
    Failed { detail: String },
    /// What was seen of its entries, in order, up to the first entry that
    /// could not be read.
    Seen { sightings: Vec<Sighting> },
}

/// What a `Sighting` holds, as mathematical values.
pub enum SightingView {
    File(Seq<char>),
    Directory(Seq<char>),
    Other(Seq<char>),
    UnknownKind { path: Seq<char>, detail: Seq<char> },
    Unreadable { detail: Seq<char> },
}

/// What a `ScanError` holds, as mathematical values.
pub enum ScanErrorView {
    Folder { path: Seq<char>, detail: Seq<char> },
    Entry { folder: Seq<char>, detail: Seq<char> },
    Kind { path: Seq<char>, detail: Seq<char> },
}

impl View for Sighting {
    type V = SightingView;

    open spec fn view(&self) -> SightingView {
        match self {
            Sighting::File(path) => SightingView::File(path@),
            Sighting::Directory(path) => SightingView::Directory(path@),
            Sighting::Other(path) => SightingView::Other(path@),
            Sighting::UnknownKind { path, detail } => SightingView::UnknownKind {
                path: path@,
                detail: detail@,
            },
            Sighting::Unreadable { detail } => SightingView::Unreadable { detail: detail@ },
        }
    }
}

impl View for ScanError {
    type V = ScanErrorView;

    open spec fn view(&self) -> ScanErrorView {
        match self {
            ScanError::Folder { path, detail } => ScanErrorView::Folder {
                path: path@,
                detail: detail@,
            },
            ScanError::Entry { folder, detail } => ScanErrorView::Entry {
                folder: folder@,
                detail: detail@,
            },
            ScanError::Kind { path, detail } => ScanErrorView::Kind {
                path: path@,
                detail: detail@,
            },
        }
    }
}

/// The text of a failure.
pub open spec fn scan_message_of(error: ScanErrorView) -> Seq<char> {
    match error {
        ScanErrorView::Folder { path, detail } => "Error reading folder. ("@ + detail + ")"@,
        ScanErrorView::Entry { folder, detail } => "Error reading folder. ("@ + detail + ")"@,
        ScanErrorView::Kind { path, detail } => "Error file type: \""@ + path + "\" ("@ + detail
            + ")"@,
    }
}

impl ScanError {
    /// The failure as a line of text for the operator.
    pub fn message(&self) -> (text: String)
        ensures
            text@ == scan_message_of(self@),
    {
        match self {
            ScanError::Folder { path, detail } => {
                let mut text = String::from_str("Error reading folder. (");
                text.append(detail.as_str());
                text.append(")");
                text
            },
            ScanError::Entry { folder, detail } => {
                let mut text = String::from_str("Error reading folder. (");
                text.append(detail.as_str());
                text.append(")");
                text
            },
            ScanError::Kind { path, detail } => {
                let mut text = String::from_str("Error file type: \"");
                text.append(path.as_str());
                text.append("\" (");
                text.append(detail.as_str());
                text.append(")");
                text
            },
        }
    }
}

/// The views of a list of sightings, in order.
pub open spec fn sighting_views(list: Seq<Sighting>) -> Seq<SightingView> {
    Seq::new(list.len(), |i: int| list[i]@)
}

/// The views of a list of failures, in order.
pub open spec fn error_views(list: Seq<ScanError>) -> Seq<ScanErrorView> {
    Seq::new(list.len(), |i: int| list[i]@)
}

/// The path of a sighting that is a regular file.
pub open spec fn file_seen() -> spec_fn(SightingView) -> Option<Seq<char>> {
    |sighting: SightingView|
        match sighting {
            SightingView::File(path) => Some(path),
            _ => None,
        }
}

/// The path of a sighting that is a directory.
pub open spec fn directory_seen() -> spec_fn(SightingView) -> Option<Seq<char>> {
    |sighting: SightingView|
        match sighting {
            SightingView::Directory(path) => Some(path),
            _ => None,
        }
}

/// The failure that a sighting of unknown kind is.
pub open spec fn kind_failure() -> spec_fn(SightingView) -> Option<ScanErrorView> {
    |sighting: SightingView|
        match sighting {
            SightingView::UnknownKind { path, detail } => Some(
                ScanErrorView::Kind { path, detail },
            ),
            _ => None,
        }
}

/// `taken` sightings of a listing are taken in: all of them, or those before
/// the first entry that could not be read, where the listing breaks off.
pub open spec fn is_taken(sightings: Seq<SightingView>, taken: int) -> bool {
    &&& 0 <= taken <= sightings.len()
    &&& forall|i: int| 0 <= i < taken ==> !(#[trigger] sightings[i] is Unreadable)
    &&& taken < sightings.len() ==> sightings[taken] is Unreadable
}

/// The state of a scan, as mathematical values.
pub struct ScanView {
    /// The directories still to list; the last is listed next.
    pub pending: Seq<Seq<char>>,
    /// The regular files found so far.
    pub files: Seq<Seq<char>>,
    /// The failures met so far.
    pub errors: Seq<ScanErrorView>,
}

impl ScanView {
    /// The scan after the listing of `folder` failed: the failure is noted,
    /// and every file found and every directory still to list stays.
    pub open spec fn after_failure(self, folder: Seq<char>, detail: Seq<char>) -> ScanView {
        ScanView {
            pending: self.pending,
            files: self.files,
            errors: self.errors.push(ScanErrorView::Folder { path: folder, detail }),
        }
    }

    /// The scan after `folder` was listed and the first `taken` sightings
    /// were taken in: their regular files are found, their directories are
    /// to be listed, those of unknown kind are noted as failures, and so is
    /// the entry at which the listing broke off, if it did. Everything else
    /// is left out.
    pub open spec fn after_listing(
        self,
        folder: Seq<char>,
        sightings: Seq<SightingView>,
        taken: int,
    ) -> ScanView {
        let seen = sightings.take(taken);
        ScanView {
            pending: self.pending + seen.filter_map(directory_seen()),
            files: self.files + seen.filter_map(file_seen()),
            errors: self.errors + seen.filter_map(kind_failure()) + (if taken < sightings.len() {
                match sightings[taken] {
                    SightingView::Unreadable { detail } => seq![
                        ScanErrorView::Entry { folder, detail },
                    ],
                    _ => Seq::empty(),
                }
            } else {
                Seq::empty()
            }),
        }
    }
}

/// What a `Listing` holds, as mathematical values.
pub enum ListingView {
    Failed { detail: Seq<char> },
    Seen { sightings: Seq<SightingView> },
}

impl View for Listing {
    type V = ListingView;

    open spec fn view(&self) -> ListingView {
        match self {
            Listing::Failed { detail } => ListingView::Failed { detail: detail@ },
            Listing::Seen { sightings } => ListingView::Seen {
                sightings: sighting_views(sightings@),
            },
        }
    }
}

/// How many sightings of a listing are taken in: those before the first
/// entry that could not be read, or all of them.
pub open spec fn taken_of(sightings: Seq<SightingView>) -> int
    decreases sightings.len(),
{
    if sightings.len() == 0 {
        0
    } else {
        let before = taken_of(sightings.drop_last());
        if before == sightings.len() - 1 && !(sightings.last() is Unreadable) {
            before + 1
        } else {
            before
        }
    }
}

/// The regular files that a listing shows before it breaks off.
pub open spec fn files_shown(listing: ListingView) -> Seq<Seq<char>> {
    match listing {
        ListingView::Failed { detail } => Seq::empty(),
        ListingView::Seen { sightings } => sightings.take(taken_of(sightings)).filter_map(
            file_seen(),
        ),
    }
}

impl ScanView {
    /// The scan after what listing `folder` gave is taken in.
    pub open spec fn recorded(self, folder: Seq<char>, listing: ListingView) -> ScanView {
        match listing {
            ListingView::Failed { detail } => self.after_failure(folder, detail),
            ListingView::Seen { sightings } => self.after_listing(
                folder,
                sightings,
                taken_of(sightings),
            ),
        }
    }

    /// The scan with the directory that is listed next taken off those still
    /// to list.
    pub open spec fn without_next(self) -> ScanView {
        ScanView { pending: self.pending.drop_last(), files: self.files, errors: self.errors }
    }

    /// The scan after one step: the directory listed next is taken off those
    /// still to list, and what its listing gave is taken in. A scan with
    /// nothing to list stays as it is.
    pub open spec fn step(self, listings: spec_fn(Seq<char>) -> ListingView) -> ScanView {
        if self.pending.len() == 0 {
            self
        } else {
            self.without_next().recorded(self.pending.last(), listings(self.pending.last()))
        }
    }

    /// The scan after `steps` steps.
    pub open spec fn run(self, listings: spec_fn(Seq<char>) -> ListingView, steps: nat) -> ScanView
        decreases steps,
    {
        if steps == 0 {
            self
        } else {
            self.step(listings).run(listings, (steps - 1) as nat)
        }
    }
}

/// `taken_of` is the number of sightings taken in, and the only one.
pub proof fn lemma_taken_of(sightings: Seq<SightingView>)
    ensures
        is_taken(sightings, taken_of(sightings)),
        forall|taken: int| is_taken(sightings, taken) ==> taken == taken_of(sightings),
    decreases sightings.len(),
{
    if sightings.len() > 0 {
        lemma_taken_of(sightings.drop_last());
        let before = taken_of(sightings.drop_last());
        assert forall|i: int| 0 <= i < before implies !(#[trigger] sightings[i] is Unreadable) by {
            assert(sightings.drop_last()[i] == sightings[i]);
        }
        if before < sightings.len() - 1 {
            assert(sightings.drop_last()[before] == sightings[before]);
        }
    }
    let found = taken_of(sightings);
    assert forall|taken: int| is_taken(sightings, taken) implies taken == found by {
        if taken < found {
            assert(!(sightings[taken] is Unreadable));
        } else if found < taken {
            assert(!(sightings[found] is Unreadable));
        }
    }
}

/// A step keeps every file found so far, and keeps every directory still to
/// list but the one that it lists.
pub proof fn lemma_step_keeps(s: ScanView, listings: spec_fn(Seq<char>) -> ListingView)
    ensures
        s.files.len() <= s.step(listings).files.len(),
        forall|i: int| 0 <= i < s.files.len() ==> s.step(listings).files[i] == s.files[i],
        forall|i: int|
            0 <= i < s.pending.len() - 1 ==> i < s.step(listings).pending.len() && s.step(
                listings,
            ).pending[i] == s.pending[i],
        s.pending.len() > 0 ==> s.step(listings).files == s.files + files_shown(
            listings(s.pending.last()),
        ),
{
    if s.pending.len() > 0 {
        match listings(s.pending.last()) {
            ListingView::Failed { detail } => {
                assert(s.files + Seq::<Seq<char>>::empty() =~= s.files);
            },
            ListingView::Seen { sightings } => {},
        }
    }
}

/// Running a scan keeps every file found so far.
pub proof fn lemma_run_keeps_files(
    s: ScanView,
    listings: spec_fn(Seq<char>) -> ListingView,
    steps: nat,
)
    ensures
        s.files.len() <= s.run(listings, steps).files.len(),
        forall|i: int| 0 <= i < s.files.len() ==> s.run(listings, steps).files[i] == s.files[i],
    decreases steps,
{
    if steps > 0 {
        lemma_step_keeps(s, listings);
        lemma_run_keeps_files(s.step(listings), listings, (steps - 1) as nat);
    }
}

/// Running a scan for some steps and then for some more is running it for
/// all of them.
pub proof fn lemma_run_on(
    s: ScanView,
    listings: spec_fn(Seq<char>) -> ListingView,
    first: nat,
    then: nat,
)
    ensures
        s.run(listings, first).run(listings, then) == s.run(listings, first + then),
    decreases first,
{
    if first > 0 {
        lemma_run_on(s.step(listings), listings, (first - 1) as nat, then);
    }
}

/// A scan that has come to its end has found every regular file that the
/// listing of a directory shows, for each directory that it had to list:
/// whatever the listings of the other directories gave, and whether they
/// failed or not.
pub proof fn lemma_scan_finds(
    s: ScanView,
    listings: spec_fn(Seq<char>) -> ListingView,
    steps: nat,
    folder: Seq<char>,
    file: Seq<char>,
)
    requires
        s.run(listings, steps).pending.len() == 0,
        s.pending.contains(folder),
        files_shown(listings(folder)).contains(file),
    ensures
        s.run(listings, steps).files.contains(file),
    decreases steps,
{
    if steps == 0 {
    } else {
        let next = s.step(listings);
        let end = s.run(listings, steps);
        lemma_step_keeps(s, listings);
        let at = choose|i: int| 0 <= i < s.pending.len() && s.pending[i] == folder;
        if at == s.pending.len() - 1 {
            let shown = files_shown(listings(folder));
            let k = choose|k: int| 0 <= k < shown.len() && shown[k] == file;
            assert(next.files[s.files.len() + k] == file);
            lemma_run_keeps_files(next, listings, (steps - 1) as nat);
            assert(end.files[s.files.len() + k] == file);
        } else {
            assert(next.pending[at] == folder);
            lemma_scan_finds(next, listings, (steps - 1) as nat, folder, file);
        }
    }
}

/// Partial failure: a scan that has come to its end has found every regular
/// file shown in every directory that it ever had to list and could list. A
/// directory that cannot be listed hides only what lies in it.
pub proof fn law_scan_finds_what_can_be_listed(
    s: ScanView,
    listings: spec_fn(Seq<char>) -> ListingView,
    steps: nat,
    reached: nat,
    folder: Seq<char>,
    file: Seq<char>,
)
    requires
        s.run(listings, steps).pending.len() == 0,
        reached <= steps,
        s.run(listings, reached).pending.contains(folder),
        files_shown(listings(folder)).contains(file),
    ensures
        s.run(listings, steps).files.contains(file),
{
    lemma_run_on(s, listings, reached, (steps - reached) as nat);
    lemma_scan_finds(s.run(listings, reached), listings, (steps - reached) as nat, folder, file);
}

/// A scan finds nothing but what it held at its start and what the listing
/// of some directory shows: a directory whose listing fails adds no file.
pub proof fn law_scan_finds_only_what_is_shown(
    s: ScanView,
    listings: spec_fn(Seq<char>) -> ListingView,
    steps: nat,
    file: Seq<char>,
)
    requires
        s.run(listings, steps).files.contains(file),
    ensures
        s.files.contains(file) || exists|folder: Seq<char>|
            (#[trigger] listings(folder)) is Seen && files_shown(listings(folder)).contains(file),
    decreases steps,
{
    if steps > 0 {
        let next = s.step(listings);
        lemma_step_keeps(s, listings);
        law_scan_finds_only_what_is_shown(next, listings, (steps - 1) as nat, file);
        if next.files.contains(file) && !s.files.contains(file) {
            let k = choose|k: int| 0 <= k < next.files.len() && next.files[k] == file;
            assert(s.pending.len() > 0);
            let folder = s.pending.last();
            let shown = files_shown(listings(folder));
            assert(shown[k - s.files.len()] == file);
            assert(listings(folder) is Seen);
        }
    }
}

/// A scan in progress: the directories still to list, the regular files
/// found, and the failures met.
#[derive(Debug)]
pub struct Scan {
    pending: Vec<String>,
    files: Vec<String>,
    errors: Vec<ScanError>,
}

impl View for Scan {
    type V = ScanView;

    closed spec fn view(&self) -> ScanView {
        ScanView {
            pending: texts(self.pending@),
            files: texts(self.files@),
            errors: error_views(self.errors@),
        }
    }
}

impl Scan {
    /// A scan that has `root` to list and has found nothing yet.
    pub fn new(root: &str) -> (scan: Scan)
        ensures
            scan@ == (ScanView { pending: seq![root@], files: Seq::empty(), errors: Seq::empty() }),
    {
        let mut pending: Vec<String> = Vec::new();
        pending.push(String::from_str(root));
        let scan = Scan { pending, files: Vec::new(), errors: Vec::new() };
        assert(scan@.pending =~= seq![root@]);
        assert(scan@.files =~= Seq::empty());
        assert(scan@.errors =~= Seq::empty());
        scan
    }

    /// The directory to list next, taken off those still to list; `None`
    /// when the scan is done.
    pub fn next(&mut self) -> (folder: Option<String>)
        ensures
            final(self)@.files == old(self)@.files,
            final(self)@.errors == old(self)@.errors,
            match folder {
                Some(path) => old(self)@.pending.len() > 0 && path@ == old(self)@.pending.last()
                    && final(self)@ == old(self)@.without_next(),
                None => old(self)@.pending.len() == 0 && final(self)@.pending.len() == 0,
            },
    {
        let folder = self.pending.pop();
        proof {
            if folder is Some {
                assert(self@.pending =~= old(self)@.pending.drop_last());
            }
        }
        folder
    }

    /// Notes that `folder` could not be listed. The scan goes on with the
    /// directories still to list, and keeps what it has found.
    pub fn failed(&mut self, folder: &str, detail: &str)
        ensures
            final(self)@ == old(self)@.after_failure(folder@, detail@),
    {
        let error = ScanError::Folder {
            path: String::from_str(folder),
            detail: String::from_str(detail),
        };
        self.errors.push(error);
        assert(self@.errors =~= old(self)@.errors.push(error@));
    }

    /// Takes in what was seen in `folder`, entry by entry: a regular file is
    /// found, a directory is to be listed, an entry of unknown kind is noted
    /// as a failure and left out, anything else is left out in silence. At
    /// the first entry that could not be read the listing breaks off: the
    /// failure is noted and the rest is left out. Tells how many sightings
    /// were taken in.
    pub fn listed(&mut self, folder: &str, sightings: Vec<Sighting>) -> (taken: usize)
        ensures
            is_taken(sighting_views(sightings@), taken as int),
            taken == taken_of(sighting_views(sightings@)),
            final(self)@ == old(self)@.after_listing(
                folder@,
                sighting_views(sightings@),
                taken as int,
            ),
    {
        let ghost seen = sighting_views(sightings@);
        let ghost before = self@;
        let mut i: usize = 0;
        assert(seen.take(0) =~= Seq::empty());
        while i < sightings.len()
            invariant
                i <= sightings@.len(),
                seen == sighting_views(sightings@),
                before == old(self)@,
                forall|j: int| 0 <= j < i ==> !(#[trigger] seen[j] is Unreadable),
                self@.pending == before.pending + seen.take(i as int).filter_map(
                    directory_seen(),
                ),
                self@.files == before.files + seen.take(i as int).filter_map(file_seen()),
                self@.errors == before.errors + seen.take(i as int).filter_map(kind_failure()),
            decreases sightings@.len() - i,
        {
            proof {
                assert(seen.take(i + 1).drop_last() =~= seen.take(i as int));
                assert(seen.take(i + 1).last() == seen[i as int]);
                assert(seen[i as int] == sightings@[i as int]@);
            }
            let ghost pending = self@.pending;
            let ghost files = self@.files;
            let ghost errors = self@.errors;
            match &sightings[i] {
                Sighting::File(path) => {
                    self.files.push(path.clone());
                    assert(self@.files =~= files.push(path@));
                },
                Sighting::Directory(path) => {
                    self.pending.push(path.clone());
                    assert(self@.pending =~= pending.push(path@));
                },
                Sighting::Other(_) => {},
                Sighting::UnknownKind { path, detail } => {
                    let error = ScanError::Kind { path: path.clone(), detail: detail.clone() };
                    self.errors.push(error);
                    assert(self@.errors =~= errors.push(error@));
                },
                Sighting::Unreadable { detail } => {
                    let error = ScanError::Entry {
                        folder: String::from_str(folder),
                        detail: detail.clone(),
                    };
                    self.errors.push(error);
                    proof {
                        lemma_taken_of(seen);
                        assert(is_taken(seen, i as int));
                        let after = before.after_listing(folder@, seen, i as int);
                        assert(seen[i as int] == (SightingView::Unreadable { detail: detail@ }));
                        assert(self@.errors =~= errors + seq![error@]);
                        assert(self@.errors =~= after.errors);
                        assert(self@.files == after.files);
                        assert(self@.pending == after.pending);
                    }
                    return i;
                },
            }
            proof {
                let upto = seen.take(i + 1);
                assert(self@.pending =~= before.pending + upto.filter_map(directory_seen()));
                assert(self@.files =~= before.files + upto.filter_map(file_seen()));
                assert(self@.errors =~= before.errors + upto.filter_map(kind_failure()));
            }
            i = i + 1;
        }
        proof {
            lemma_taken_of(seen);
            assert(self@.errors =~= before.errors + seen.take(i as int).filter_map(kind_failure())
                + Seq::empty());
        }
        i
    }

    /// Takes in what listing `folder` gave: `failed` for a listing that
    /// failed, `listed` for what was seen.
    pub fn record(&mut self, folder: &str, listing: Listing)
        ensures
            final(self)@ == old(self)@.recorded(folder@, listing@),
    {
        match listing {
            Listing::Failed { detail } => {
                self.failed(folder, detail.as_str());
            },
            Listing::Seen { sightings } => {
                self.listed(folder, sightings);
            },
        }
    }

    /// Whether directories are still to be listed.
    pub fn is_done(&self) -> (done: bool)
        ensures
            done == (self@.pending.len() == 0),
    {
        self.pending.len() == 0
    }

    /// The regular files found so far, in the order in which they were found.
    pub fn files(&self) -> (files: &Vec<String>)
        ensures
            texts(files@) == self@.files,
    {
        &self.files
    }

    /// The failures met so far, in the order in which they were met.
    pub fn errors(&self) -> (errors: &Vec<ScanError>)
        ensures
            error_views(errors@) == self@.errors,
    {
        &self.errors
    }

    /// Ends the scan and gives the regular files that it found.
    pub fn into_files(self) -> (files: Vec<String>)
        ensures
            texts(files@) == self@.files,
    {
        self.files
    }
}

} // verus!
