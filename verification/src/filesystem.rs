//! The collection of entries: a set keyed by path, with an optional root.

use vstd::prelude::*;
use vstd::string::StringExecFns;
use crate::entry::{copy_text, ContentType, FileContent, FileContentView};
use crate::error::Error;
use crate::model::{
    is_added, law_add_all_keeps_parents, law_add_described, law_add_keeps_parents, lemma_rooted,
    views, FileSystemView,
};
use crate::path::{
    all_absolute, is_common_root, lemma_parent_of, name_of, parent, parent_of, resolve_root,
    text_of, texts,
};
use crate::stamp::{millis_from_seconds, millis_of_seconds};

verus! {

/// The entry of a regular file as a scan finds it: with its parent, its size,
/// and the times of its last reading and last change, which the scan has in
/// seconds and the entry holds in milliseconds.
pub open spec fn local_entry(
    path: Seq<char>,
    length: usize,
    accessed: u64,
    modified: u64,
) -> FileContentView {
    FileContentView {
        name: name_of(path),
        path,
        parent: parent_of(path),
        length,
        content_type: ContentType::FILE,
        e_tag: None,
        modification_time: millis_of_seconds(modified) as i64,
        access_time: millis_of_seconds(accessed) as i64,
    }
}

/// A deduplicated collection of entries with an optional root.
#[derive(Debug)]
pub struct FileSystem {
    root: Option<String>,
    list: Vec<FileContent>,
}

impl View for FileSystem {
    type V = FileSystemView;

    closed spec fn view(&self) -> FileSystemView {
        FileSystemView { root: text_of(self.root), entries: views(self.list@) }
    }
}

impl Clone for FileSystem {
    fn clone(&self) -> (copy: FileSystem)
        ensures
            copy@ == self@,
    {
        let mut list: Vec<FileContent> = Vec::new();
        let mut i: usize = 0;
        while i < self.list.len()
            invariant
                i <= self.list@.len(),
                list@.len() == i,
                forall|j: int| 0 <= j < i ==> (#[trigger] list@[j])@ == self.list@[j]@,
            decreases self.list@.len() - i,
        {
            list.push(self.list[i].clone());
            i = i + 1;
        }
        let copy = FileSystem { root: copy_text(&self.root), list };
        assert(copy@.entries =~= self@.entries);
        copy
    }
}

impl FileSystem {
    /// No path is held twice, and the root, where one is set, is held. Every
    /// collection that this type's functions make is of this kind.
    pub open spec fn wf(&self) -> bool {
        self@.wf()
    }

    /// An empty collection without a root.
    pub fn new() -> (fs: FileSystem)
        ensures
            fs@ == FileSystemView::empty(),
            fs.wf(),
    {
        let fs = FileSystem { root: None, list: Vec::new() };
        assert(fs@.entries =~= Seq::empty());
        fs
    }

    /// A collection without a root that holds the entries of `list`: of two
    /// with one path, the one that comes first.
    pub fn from(list: Vec<FileContent>) -> (fs: FileSystem)
        ensures
            fs.wf(),
            fs@ == FileSystemView::empty().inserted_all(views(list@)),
    {
        let mut fs = FileSystem::new();
        let ghost all = views(list@);
        let mut i: usize = 0;
        assert(all.skip(0) =~= all);
        while i < list.len()
            invariant
                i <= list@.len(),
                all == views(list@),
                fs.wf(),
                fs@.inserted_all(all.skip(i as int)) == FileSystemView::empty().inserted_all(all),
            decreases list@.len() - i,
        {
            assert(all.skip(i as int)[0] == list@[i as int]@);
            assert(all.skip(i as int).drop_first() =~= all.skip(i + 1));
            fs.insert(list[i].clone());
            i = i + 1;
        }
        assert(all.skip(i as int).len() == 0);
        fs
    }

    /// Where the entry for `path` stands in the list, if one is held.
    fn find(&self, path: &String) -> (at: Option<usize>)
        ensures
            match at {
                Some(i) => i < self@.entries.len() && self@.entries[i as int].path == path@,
                None => !self@.has(path@),
            },
    {
        let mut i: usize = 0;
        while i < self.list.len()
            invariant
                i <= self.list@.len(),
                forall|j: int| 0 <= j < i ==> (#[trigger] self@.entries[j]).path != path@,
            decreases self.list@.len() - i,
        {
            if self.list[i].path == *path {
                return Some(i);
            }
            i = i + 1;
        }
        None
    }

    /// Puts `entry` in unless its path is held already: the entry that came
    /// first stays. Tells whether `entry` went in.
    pub fn insert(&mut self, entry: FileContent) -> (fresh: bool)
        requires
            old(self).wf(),
        ensures
            final(self).wf(),
            final(self)@ == old(self)@.inserted(entry@),
            fresh == !old(self)@.has(entry@.path),
    {
        match self.find(&entry.path) {
            Some(_) => false,
            None => {
                let ghost before = self@;
                self.list.push(entry);
                proof {
                    assert(self@.entries =~= before.entries.push(entry@));
                    assert(before.root matches Some(r) ==> self@.has(r)) by {
                        if let Some(r) = before.root {
                            let i = choose|i: int|
                                0 <= i < before.entries.len() && (
                                #[trigger] before.entries[i]).path == r;
                            assert(self@.entries[i].path == r);
                        }
                    }
                }
                true
            },
        }
    }

    /// Puts in the entry of a regular file as a scan finds it, with its size
    /// and its times in seconds since the epoch, unless its path is held
    /// already. The directories above it are not added. Tells whether the
    /// entry went in.
    pub fn add_local_file(
        &mut self,
        path: &str,
        length: usize,
        accessed: u64,
        modified: u64,
    ) -> (fresh: bool)
        requires
            old(self).wf(),
        ensures
            final(self).wf(),
            final(self)@ == old(self)@.inserted(local_entry(path@, length, accessed, modified)),
            fresh == !old(self)@.has(path@),
    {
        let mut entry = FileContent::new(path, parent(path), length, ContentType::FILE);
        entry.access_time = millis_from_seconds(accessed);
        entry.modification_time = millis_from_seconds(modified);
        self.insert(entry)
    }

    /// Whether `path` is the root.
    fn is_root(&self, path: &String) -> (yes: bool)
        ensures
            yes == (self@.root == Some(path@)),
    {
        match &self.root {
            Some(r) => *r == *path,
            None => false,
        }
    }

    /// Makes `path` the root and puts a directory without a parent in for it.
    /// An entry already held for `path` stays as it is.
    pub fn set_root(&mut self, path: &str)
        requires
            old(self).wf(),
        ensures
            final(self).wf(),
            final(self)@ == old(self)@.rooted(path@),
            old(self)@.closed() ==> final(self)@.closed(),
    {
        let ghost before = self@;
        proof {
            lemma_rooted(before, path@);
        }
        let entry = FileContent::new(path, None, 0, ContentType::DIRECTORY);
        self.insert(entry);
        self.root = Some(String::from_str(path));
        proof {
            let marked = FileSystemView { root: Some(path@), entries: before.entries };
            assert(marked.has(path@) == before.has(path@));
            if !before.has(path@) {
                assert(self@.entries[before.entries.len() as int].path == path@);
            }
        }
    }

    /// Adds `path` with the given size and kind, then every directory above it
    /// that is not yet held, up to the root or to a path without a parent.
    /// Where `path` is the root nothing is added, and the answer is `false`.
    pub fn add(&mut self, path: &str, length: usize, content_type: ContentType) -> (added: bool)
        requires
            old(self).wf(),
        ensures
            final(self).wf(),
            final(self)@ == old(self)@.added(path@, length, content_type),
            is_added(old(self)@, final(self)@, path@, length, content_type),
            added == (old(self)@.root != Some(path@)),
            old(self)@.closed() ==> final(self)@.closed(),
    {
        let ghost target = self@.added(path@, length, content_type);
        proof {
            law_add_described(self@, path@, length, content_type);
            if self@.closed() {
                law_add_keeps_parents(self@, path@, length, content_type);
            }
        }
        let mut current = String::from_str(path);
        if self.is_root(&current) {
            return false;
        }
        let mut size = length;
        let mut kind = content_type;
        loop
            invariant_except_break
                self@.added(current@, size, kind) == target,
            invariant
                self.wf(),
            ensures
                self@ == target,
            decreases current@.len(),
        {
            if self.is_root(&current) {
                break ;
            }
            let above = parent(current.as_str());
            let entry = FileContent::new(current.as_str(), copy_text(&above), size, kind);
            self.insert(entry);
            match above {
                Some(next) => {
                    proof {
                        lemma_parent_of(current@);
                    }
                    current = next;
                    size = 0;
                    kind = ContentType::DIRECTORY;
                },
                None => {
                    break ;
                },
            }
        }
        true
    }

    /// Builds the hierarchy of a list of file paths.
    ///
    /// The root is `root` where one is given. Else it is the longest run of
    /// leading components that all of `files` share; where they share none
    /// the collection is left without a root. Then each path is added as a
    /// file of size 0, together with the directories above it.
    ///
    /// Without a given root an empty list is refused as `InvalidInput`, and
    /// nothing changes.
    pub fn from_str_list(
        &mut self,
        files: Vec<String>,
        root: Option<&str>,
    ) -> (done: Result<(), Error>)
        requires
            old(self).wf(),
        ensures
            final(self).wf(),
            match done {
                Err(e) => e == Error::InvalidInput && root is None && files@.len() == 0
                    && final(self)@ == old(self)@,
                Ok(_) => match root {
                    Some(given) => final(self)@ == old(self)@.rooted(given@).added_all(
                        texts(files@),
                    ),
                    None => files@.len() > 0 && match final(self)@.root {
                        Some(shared) => shared.len() > 0 && is_common_root(shared, texts(files@))
                            && final(self)@ == old(self)@.rooted(shared).added_all(
                            texts(files@),
                        ),
                        None => is_common_root(Seq::empty(), texts(files@)) && final(self)@
                            == old(self)@.unrooted().added_all(texts(files@)),
                    },
                },
            },
            old(self)@.closed() ==> final(self)@.closed(),
            files@.len() > 0 && all_absolute(texts(files@)) ==> done is Ok
                && final(self)@.root is Some,
    {
        let ghost before = self@;
        let ghost paths = texts(files@);
        match resolve_root(&files, root) {
            Ok(found) => {
                self.set_root(found.as_str());
            },
            Err(e) => {
                if files.len() == 0 {
                    return Err(e);
                }
                self.root = None;
                assert(self@ == before.unrooted());
            },
        }
        let ghost start = self@;
        proof {
            law_add_all_keeps_parents(start, paths);
        }
        let mut i: usize = 0;
        assert(paths.skip(0) =~= paths);
        while i < files.len()
            invariant
                i <= files@.len(),
                paths == texts(files@),
                self.wf(),
                self@.added_all(paths.skip(i as int)) == start.added_all(paths),
            decreases files@.len() - i,
        {
            let ghost rest = paths.skip(i as int);
            assert(rest[0] == files@[i as int]@);
            assert(rest.drop_first() =~= paths.skip(i + 1));
            self.add(files[i].as_str(), 0, ContentType::FILE);
            i = i + 1;
        }
        assert(paths.skip(i as int).len() == 0);
        Ok(())
    }

    /// How many entries are held.
    pub fn len(&self) -> (count: usize)
        ensures
            count == self@.entries.len(),
    {
        self.list.len()
    }

    /// The path of the root, where one is set.
    pub fn root(&self) -> (root: Option<String>)
        ensures
            text_of(root) == self@.root,
    {
        copy_text(&self.root)
    }

    /// Whether an entry for `path` is held.
    pub fn contains(&self, path: &str) -> (held: bool)
        ensures
            held == self@.has(path@),
    {
        let key = String::from_str(path);
        self.find(&key).is_some()
    }

    /// Where the entry for `path` stands among the entries, if one is held.
    pub fn position(&self, path: &str) -> (at: Option<usize>)
        ensures
            match at {
                Some(i) => i < self@.entries.len() && self@.entries[i as int].path == path@,
                None => !self@.has(path@),
            },
    {
        let key = String::from_str(path);
        self.find(&key)
    }

    /// The entry held for `path`, if there is one.
    pub fn get(&self, path: &str) -> (found: Option<&FileContent>)
        ensures
            match found {
                Some(entry) => self@.has(path@) && entry@.path == path@ && exists|i: int|
                    0 <= i < self@.entries.len() && self@.entries[i] == entry@,
                None => !self@.has(path@),
            },
    {
        let key = String::from_str(path);
        match self.find(&key) {
            Some(i) => {
                assert(self@.entries[i as int] == self.list@[i as int]@);
                Some(&self.list[i])
            },
            None => None,
        }
    }

    /// The entries, in the order in which they came.
    pub fn entries(&self) -> (list: &Vec<FileContent>)
        ensures
            views(list@) == self@.entries,
    {
        &self.list
    }

    /// Gives up the collection for its entries, in the order in which they
    /// came.
    pub fn into_vec(self) -> (list: Vec<FileContent>)
        ensures
            views(list@) == self@.entries,
    {
        self.list
    }
}

} // verus!
