//! The collection of entries as a mathematical value, and what holds of it.

use vstd::prelude::*;
use crate::entry::{fresh_entry, ContentType, FileContent, FileContentView};
use crate::path::{is_ancestor_or_self, lemma_ancestor_step, lemma_parent_of, parent_of};

verus! {

/// The views of a list of entries, in order.
pub open spec fn views(list: Seq<FileContent>) -> Seq<FileContentView> {
    Seq::new(list.len(), |i: int| list[i]@)
}

/// What a `FileSystem` holds, as mathematical values: the entries in the order
/// in which they came, and the path of the root where one is set.
pub struct FileSystemView {
    pub root: Option<Seq<char>>,
    pub entries: Seq<FileContentView>,
}

impl FileSystemView {
    /// The collection with no entry and no root.
    pub open spec fn empty() -> FileSystemView {
        FileSystemView { root: None, entries: Seq::empty() }
    }

    /// An entry for `path` is held.
    pub open spec fn has(self, path: Seq<char>) -> bool {
        exists|i: int| 0 <= i < self.entries.len() && (#[trigger] self.entries[i]).path == path
    }

    /// No path is held twice, and the root, where one is set, is held.
    pub open spec fn wf(self) -> bool {
        &&& forall|i: int, j: int|
            0 <= i < j < self.entries.len() ==> (#[trigger] self.entries[i]).path != (
            #[trigger] self.entries[j]).path
        &&& self.root matches Some(r) ==> self.has(r)
    }

    /// Every parent that an entry names is itself held.
    pub open spec fn closed(self) -> bool {
        forall|i: int|
            0 <= i < self.entries.len() ==> ((#[trigger] self.entries[i]).parent matches Some(p)
                ==> self.has(p))
    }

    /// The collection after `entry` is put in: unchanged where its path is
    /// held already, else with `entry` at the end.
    pub open spec fn inserted(self, entry: FileContentView) -> FileSystemView {
        if self.has(entry.path) {
            self
        } else {
            FileSystemView { root: self.root, entries: self.entries.push(entry) }
        }
    }

    /// The collection after each of `more` is put in, in order.
    pub open spec fn inserted_all(self, more: Seq<FileContentView>) -> FileSystemView
        decreases more.len(),
    {
        if more.len() == 0 {
            self
        } else {
            self.inserted(more[0]).inserted_all(more.drop_first())
        }
    }

    /// The collection with its root forgotten and its entries kept.
    pub open spec fn unrooted(self) -> FileSystemView {
        FileSystemView { root: None, entries: self.entries }
    }

    /// The collection after `path` is made its root: the root is set, and a
    /// directory without a parent is put in for it.
    pub open spec fn rooted(self, path: Seq<char>) -> FileSystemView {
        FileSystemView { root: Some(path), entries: self.entries }.inserted(
            fresh_entry(path, None, 0, ContentType::DIRECTORY),
        )
    }

    /// The collection after `path` is added: nothing changes where `path` is
    /// the root; else an entry is put in for `path`, and its parent is added
    /// as a directory of size 0 in the same way.
    pub open spec fn added(
        self,
        path: Seq<char>,
        length: usize,
        content_type: ContentType,
    ) -> FileSystemView
        decreases path.len(),
    {
        if self.root == Some(path) {
            self
        } else {
            let next = self.inserted(fresh_entry(path, parent_of(path), length, content_type));
            match parent_of(path) {
                Some(above) => {
                    proof {
                        lemma_parent_of(path);
                    }
                    next.added(above, 0, ContentType::DIRECTORY)
                },
                None => next,
            }
        }
    }

    /// The collection after each of `paths` is added, in order, as a file of
    /// size 0.
    pub open spec fn added_all(self, paths: Seq<Seq<char>>) -> FileSystemView
        decreases paths.len(),
    {
        if paths.len() == 0 {
            self
        } else {
            self.added(paths[0], 0, ContentType::FILE).added_all(paths.drop_first())
        }
    }
}

/// `x` is one of the paths that adding `path` looks at: `path` itself or a
/// directory above it, and, where the root is `path` or above it, one that
/// lies below the root.
pub open spec fn is_visited(x: Seq<char>, path: Seq<char>, root: Option<Seq<char>>) -> bool {
    &&& is_ancestor_or_self(x, path)
    &&& (root matches Some(r) ==> (is_ancestor_or_self(r, path) ==> x.len() > r.len()))
}

/// Every parent that an entry of `v` names is held, or is `missing`.
pub open spec fn closed_except(v: FileSystemView, missing: Seq<char>) -> bool {
    forall|i: int|
        0 <= i < v.entries.len() ==> ((#[trigger] v.entries[i]).parent matches Some(p) ==> v.has(
            p,
        ) || p == missing)
}

/// Adding the root looks at nothing.
pub proof fn lemma_visited_root(x: Seq<char>, path: Seq<char>)
    ensures
        !is_visited(x, path, Some(path)),
{
    lemma_ancestor_step(x, path);
}

/// Adding a path that is not the root looks at the path, and then at what
/// adding its parent looks at.
pub proof fn lemma_visited_step(x: Seq<char>, path: Seq<char>, root: Option<Seq<char>>)
    requires
        root != Some(path),
    ensures
        is_visited(x, path, root) <==> (x == path || (parent_of(path) matches Some(q)
            && is_visited(x, q, root))),
{
    lemma_ancestor_step(x, path);
    if let Some(r) = root {
        lemma_ancestor_step(r, path);
    }
    if let Some(q) = parent_of(path) {
        lemma_ancestor_step(q, path);
        lemma_ancestor_step(q, q);
    }
}

/// What putting an entry in does: its path is held afterwards, every path
/// held before stays held with its entry, and nothing else comes in.
pub proof fn lemma_inserted(v: FileSystemView, entry: FileContentView)
    ensures
        v.inserted(entry).root == v.root,
        v.inserted(entry).has(entry.path),
        forall|x: Seq<char>| v.inserted(entry).has(x) <==> v.has(x) || x == entry.path,
        v.entries.len() <= v.inserted(entry).entries.len(),
        forall|i: int|
            0 <= i < v.entries.len() ==> v.inserted(entry).entries[i] == v.entries[i],
        v.wf() ==> v.inserted(entry).wf(),
{
    let w = v.inserted(entry);
    if !v.has(entry.path) {
        assert(w.entries[v.entries.len() as int].path == entry.path);
        assert forall|x: Seq<char>| w.has(x) <==> v.has(x) || x == entry.path by {
            if v.has(x) {
                let i = choose|i: int| 0 <= i < v.entries.len() && v.entries[i].path == x;
                assert(w.entries[i].path == x);
            }
            if w.has(x) {
                let i = choose|i: int| 0 <= i < w.entries.len() && w.entries[i].path == x;
                if i < v.entries.len() {
                    assert(v.entries[i].path == x);
                }
            }
        }
        if v.wf() {
            assert forall|i: int, j: int| 0 <= i < j < w.entries.len() implies (
            #[trigger] w.entries[i]).path != (#[trigger] w.entries[j]).path by {
                if j == v.entries.len() {
                    assert(v.entries[i].path == w.entries[i].path);
                } else {
                    assert(v.entries[i].path != v.entries[j].path);
                }
            }
        }
    }
}

/// Putting a list of entries in, and then one more, is putting in the list
/// with that one at its end.
pub proof fn lemma_inserted_all_push(
    v: FileSystemView,
    more: Seq<FileContentView>,
    last: FileContentView,
)
    ensures
        v.inserted_all(more.push(last)) == v.inserted_all(more).inserted(last),
    decreases more.len(),
{
    if more.len() == 0 {
        assert(more.push(last).drop_first() =~= Seq::empty());
        assert(v.inserted(last).inserted_all(Seq::empty()) == v.inserted(last));
    } else {
        assert(more.push(last).drop_first() =~= more.drop_first().push(last));
        lemma_inserted_all_push(v.inserted(more[0]), more.drop_first(), last);
    }
}

/// Putting a list of entries in keeps the root and the entries held before,
/// and keeps the collection free of repeated paths. Afterwards the path of
/// each entry of the list is held, and whatever came in is an entry of the
/// list.
pub proof fn law_inserted_all(v: FileSystemView, more: Seq<FileContentView>)
    requires
        v.wf(),
    ensures
        v.inserted_all(more).wf(),
        v.inserted_all(more).root == v.root,
        v.entries.len() <= v.inserted_all(more).entries.len(),
        forall|i: int|
            0 <= i < v.entries.len() ==> v.inserted_all(more).entries[i] == v.entries[i],
        forall|i: int| 0 <= i < more.len() ==> v.inserted_all(more).has((#[trigger] more[i]).path),
        forall|k: int|
            v.entries.len() <= k < v.inserted_all(more).entries.len() ==> more.contains(
                #[trigger] v.inserted_all(more).entries[k],
            ),
    decreases more.len(),
{
    if more.len() > 0 {
        let next = v.inserted(more[0]);
        let rest = more.drop_first();
        let after = v.inserted_all(more);
        lemma_inserted(v, more[0]);
        law_inserted_all(next, rest);
        assert forall|i: int| 0 <= i < more.len() implies after.has((#[trigger] more[i]).path) by {
            if i == 0 {
                let at = choose|at: int|
                    0 <= at < next.entries.len() && next.entries[at].path == more[0].path;
                assert(after.entries[at].path == more[0].path);
            } else {
                assert(rest[i - 1] == more[i]);
            }
        }
        assert forall|k: int| v.entries.len() <= k < after.entries.len() implies more.contains(
            #[trigger] after.entries[k],
        ) by {
            if k < next.entries.len() {
                assert(after.entries[k] == next.entries[k]);
                assert(more[0] == after.entries[k]);
            } else {
                let j = choose|j: int| 0 <= j < rest.len() && rest[j] == after.entries[k];
                assert(more[j + 1] == after.entries[k]);
            }
        }
    }
}

/// Adding a path keeps the root, keeps every entry held before in its place
/// (who came first stays), and keeps the collection free of repeated paths.
pub proof fn lemma_added_keeps(
    v: FileSystemView,
    path: Seq<char>,
    length: usize,
    content_type: ContentType,
)
    ensures
        v.added(path, length, content_type).root == v.root,
        v.entries.len() <= v.added(path, length, content_type).entries.len(),
        forall|i: int|
            0 <= i < v.entries.len() ==> v.added(path, length, content_type).entries[i]
                == v.entries[i],
        v.wf() ==> v.added(path, length, content_type).wf(),
    decreases path.len(),
{
    if v.root != Some(path) {
        let entry = fresh_entry(path, parent_of(path), length, content_type);
        lemma_inserted(v, entry);
        if let Some(above) = parent_of(path) {
            lemma_parent_of(path);
            lemma_added_keeps(v.inserted(entry), above, 0, ContentType::DIRECTORY);
        }
    }
}

/// The paths held after adding `path` are those held before and those that
/// the addition looks at.
pub proof fn lemma_added_paths(
    v: FileSystemView,
    path: Seq<char>,
    length: usize,
    content_type: ContentType,
    x: Seq<char>,
)
    ensures
        v.added(path, length, content_type).has(x) <==> v.has(x) || is_visited(x, path, v.root),
    decreases path.len(),
{
    if v.root == Some(path) {
        lemma_visited_root(x, path);
    } else {
        let entry = fresh_entry(path, parent_of(path), length, content_type);
        lemma_inserted(v, entry);
        lemma_visited_step(x, path, v.root);
        if let Some(above) = parent_of(path) {
            lemma_parent_of(path);
            lemma_added_paths(v.inserted(entry), above, 0, ContentType::DIRECTORY, x);
        }
    }
}

/// The size and kind with which adding `path` puts an entry in for `x`: the
/// given ones for `path` itself, and those of an empty directory for what
/// lies above it.
pub open spec fn entry_added(
    x: Seq<char>,
    path: Seq<char>,
    length: usize,
    content_type: ContentType,
) -> FileContentView {
    if x == path {
        fresh_entry(x, parent_of(x), length, content_type)
    } else {
        fresh_entry(x, parent_of(x), 0, ContentType::DIRECTORY)
    }
}

/// Every entry that adding `path` puts in is for a path that the addition
/// looks at and that was not held, and names the parent of its path: it is
/// the given entry for `path` itself, and an empty directory for what lies
/// above it.
pub proof fn lemma_added_fresh(
    v: FileSystemView,
    path: Seq<char>,
    length: usize,
    content_type: ContentType,
)
    ensures
        forall|i: int|
            v.entries.len() <= i < v.added(path, length, content_type).entries.len() ==> {
                let entry = #[trigger] v.added(path, length, content_type).entries[i];
                &&& is_visited(entry.path, path, v.root)
                &&& !v.has(entry.path)
                &&& entry == entry_added(entry.path, path, length, content_type)
            },
    decreases path.len(),
{
    if v.root != Some(path) {
        let first = fresh_entry(path, parent_of(path), length, content_type);
        let next = v.inserted(first);
        let after = v.added(path, length, content_type);
        lemma_inserted(v, first);
        lemma_visited_step(path, path, v.root);
        if let Some(above) = parent_of(path) {
            lemma_parent_of(path);
            lemma_added_fresh(next, above, 0, ContentType::DIRECTORY);
            lemma_added_keeps(next, above, 0, ContentType::DIRECTORY);
            assert forall|i: int| v.entries.len() <= i < after.entries.len() implies {
                let entry = #[trigger] after.entries[i];
                &&& is_visited(entry.path, path, v.root)
                &&& !v.has(entry.path)
                &&& entry == entry_added(entry.path, path, length, content_type)
            } by {
                let entry = after.entries[i];
                if i < next.entries.len() {
                    assert(entry == next.entries[i]);
                } else {
                    lemma_visited_step(entry.path, path, v.root);
                    assert(!next.has(entry.path));
                    assert(entry.path != path);
                }
            }
        }
    }
}

/// Adding a path whose parent is the only one that may be missing leaves no
/// parent missing.
pub proof fn lemma_added_closes(
    v: FileSystemView,
    path: Seq<char>,
    length: usize,
    content_type: ContentType,
)
    requires
        v.wf(),
        closed_except(v, path),
    ensures
        v.added(path, length, content_type).closed(),
    decreases path.len(),
{
    if v.root != Some(path) {
        let entry = fresh_entry(path, parent_of(path), length, content_type);
        let next = v.inserted(entry);
        lemma_inserted(v, entry);
        match parent_of(path) {
            Some(above) => {
                lemma_parent_of(path);
                assert(closed_except(next, above)) by {
                    assert forall|i: int| 0 <= i < next.entries.len() implies ((
                    #[trigger] next.entries[i]).parent matches Some(p) ==> next.has(p) || p
                        == above) by {
                        if i < v.entries.len() {
                            assert(next.entries[i] == v.entries[i]);
                        }
                    }
                }
                lemma_added_closes(next, above, 0, ContentType::DIRECTORY);
            },
            None => {
                assert forall|i: int| 0 <= i < next.entries.len() implies ((
                #[trigger] next.entries[i]).parent matches Some(p) ==> next.has(p)) by {
                    if i < v.entries.len() {
                        assert(next.entries[i] == v.entries[i]);
                    }
                }
            },
        }
    }
}

/// Adding a path of which every path looked at is held already changes
/// nothing.
pub proof fn lemma_added_again(
    v: FileSystemView,
    path: Seq<char>,
    length: usize,
    content_type: ContentType,
)
    requires
        forall|x: Seq<char>| is_visited(x, path, v.root) ==> v.has(x),
    ensures
        v.added(path, length, content_type) == v,
    decreases path.len(),
{
    if v.root != Some(path) {
        lemma_visited_step(path, path, v.root);
        assert(v.has(path));
        if let Some(above) = parent_of(path) {
            lemma_parent_of(path);
            assert forall|x: Seq<char>| is_visited(x, above, v.root) implies v.has(x) by {
                lemma_visited_step(x, path, v.root);
            }
            lemma_added_again(v, above, 0, ContentType::DIRECTORY);
        }
    }
}

/// `after` is `before` with `path` added, said without walking: the root
/// and the entries held before stay where they are; the paths held are
/// those held before and those that lie between `path` and the root or the
/// top; and each entry that came in is the given one for `path`, or an
/// empty directory for a path above it.
pub open spec fn is_added(
    before: FileSystemView,
    after: FileSystemView,
    path: Seq<char>,
    length: usize,
    content_type: ContentType,
) -> bool {
    &&& after.root == before.root
    &&& before.entries.len() <= after.entries.len()
    &&& forall|i: int| 0 <= i < before.entries.len() ==> after.entries[i] == before.entries[i]
    &&& forall|x: Seq<char>| after.has(x) <==> before.has(x) || is_visited(x, path, before.root)
    &&& forall|i: int|
        before.entries.len() <= i < after.entries.len() ==> (#[trigger] after.entries[i])
            == entry_added(after.entries[i].path, path, length, content_type)
}

/// What adding a path does, said without walking.
pub proof fn law_add_described(
    v: FileSystemView,
    path: Seq<char>,
    length: usize,
    content_type: ContentType,
)
    ensures
        is_added(v, v.added(path, length, content_type), path, length, content_type),
{
    lemma_added_keeps(v, path, length, content_type);
    lemma_added_fresh(v, path, length, content_type);
    assert forall|x: Seq<char>|
        v.added(path, length, content_type).has(x) <==> v.has(x) || is_visited(
            x,
            path,
            v.root,
        ) by {
        lemma_added_paths(v, path, length, content_type, x);
    }
}

/// No dangling parent: where every parent that an entry names is held, the
/// same is true after a path is added, whatever the path.
pub proof fn law_add_keeps_parents(
    v: FileSystemView,
    path: Seq<char>,
    length: usize,
    content_type: ContentType,
)
    requires
        v.wf(),
        v.closed(),
    ensures
        v.added(path, length, content_type).wf(),
        v.added(path, length, content_type).closed(),
{
    lemma_added_keeps(v, path, length, content_type);
    lemma_added_closes(v, path, length, content_type);
}

/// Idempotence: adding a path a second time, with the same or another size
/// and kind, changes nothing, and the path is held exactly once.
pub proof fn law_add_twice(
    v: FileSystemView,
    path: Seq<char>,
    length: usize,
    content_type: ContentType,
    length_again: usize,
    content_type_again: ContentType,
)
    requires
        v.wf(),
    ensures
        v.added(path, length, content_type).added(path, length_again, content_type_again)
            == v.added(path, length, content_type),
        v.added(path, length, content_type).has(path),
        forall|i: int, j: int|
            0 <= i < j < v.added(path, length, content_type).entries.len() ==> !((
            #[trigger] v.added(path, length, content_type).entries[i]).path == path && (
            #[trigger] v.added(path, length, content_type).entries[j]).path == path),
{
    let once = v.added(path, length, content_type);
    lemma_added_keeps(v, path, length, content_type);
    assert forall|x: Seq<char>| is_visited(x, path, once.root) implies once.has(x) by {
        lemma_added_paths(v, path, length, content_type, x);
    }
    lemma_added_again(once, path, length_again, content_type_again);
    lemma_added_paths(v, path, length, content_type, path);
    if v.root == Some(path) {
    } else {
        lemma_visited_step(path, path, v.root);
    }
}

/// Making a path the root keeps the collection free of repeated paths, and
/// leaves no parent missing where none was.
pub proof fn lemma_rooted(v: FileSystemView, path: Seq<char>)
    requires
        v.wf(),
    ensures
        v.rooted(path).wf(),
        v.rooted(path).root == Some(path),
        v.rooted(path).has(path),
        v.closed() ==> v.rooted(path).closed(),
{
    let marked = FileSystemView { root: Some(path), entries: v.entries };
    let plain = FileSystemView { root: None, entries: v.entries };
    let entry = fresh_entry(path, None, 0, ContentType::DIRECTORY);
    assert(plain.wf());
    lemma_inserted(plain, entry);
    lemma_inserted(marked, entry);
    let w = v.rooted(path);
    assert(w.entries == plain.inserted(entry).entries) by {
        assert(plain.has(path) == marked.has(path));
    }
    assert(plain.inserted(entry).has(path));
    let k = choose|k: int|
        0 <= k < plain.inserted(entry).entries.len() && plain.inserted(entry).entries[k].path
            == path;
    assert(w.entries[k].path == path);
    if v.closed() {
        assert forall|i: int| 0 <= i < w.entries.len() implies ((
        #[trigger] w.entries[i]).parent matches Some(p) ==> w.has(p)) by {
            if i < v.entries.len() {
                assert(w.entries[i] == v.entries[i]);
                if let Some(p) = v.entries[i].parent {
                    assert(v.has(p));
                    let m = choose|m: int| 0 <= m < v.entries.len() && v.entries[m].path == p;
                    assert(w.entries[m].path == p);
                }
            }
        }
    }
}

/// Adding a list of paths keeps the root and the entries held before, keeps
/// the collection free of repeated paths, and leaves no parent missing where
/// none was: this holds of every list, so of every order of its paths.
pub proof fn law_add_all_keeps_parents(v: FileSystemView, paths: Seq<Seq<char>>)
    requires
        v.wf(),
    ensures
        v.added_all(paths).wf(),
        v.added_all(paths).root == v.root,
        v.entries.len() <= v.added_all(paths).entries.len(),
        forall|i: int| 0 <= i < v.entries.len() ==> v.added_all(paths).entries[i] == v.entries[i],
        v.closed() ==> v.added_all(paths).closed(),
    decreases paths.len(),
{
    if paths.len() > 0 {
        let next = v.added(paths[0], 0, ContentType::FILE);
        lemma_added_keeps(v, paths[0], 0, ContentType::FILE);
        if v.closed() {
            lemma_added_closes(v, paths[0], 0, ContentType::FILE);
        }
        law_add_all_keeps_parents(next, paths.drop_first());
    }
}

/// The paths held after a list is added are those held before and those that
/// adding some path of the list looks at: the order of the list has no part
/// in it.
pub proof fn law_add_all_paths(v: FileSystemView, paths: Seq<Seq<char>>, x: Seq<char>)
    ensures
        v.added_all(paths).has(x) <==> v.has(x) || exists|i: int|
            0 <= i < paths.len() && is_visited(x, #[trigger] paths[i], v.root),
    decreases paths.len(),
{
    if paths.len() > 0 {
        let next = v.added(paths[0], 0, ContentType::FILE);
        let rest = paths.drop_first();
        lemma_added_keeps(v, paths[0], 0, ContentType::FILE);
        lemma_added_paths(v, paths[0], 0, ContentType::FILE, x);
        law_add_all_paths(next, rest, x);
        if exists|i: int| 0 <= i < rest.len() && is_visited(x, #[trigger] rest[i], v.root) {
            let i = choose|i: int| 0 <= i < rest.len() && is_visited(x, #[trigger] rest[i], v.root);
            assert(paths[i + 1] == rest[i]);
        }
        if exists|i: int| 0 <= i < paths.len() && is_visited(x, #[trigger] paths[i], v.root) {
            let i = choose|i: int|
                0 <= i < paths.len() && is_visited(x, #[trigger] paths[i], v.root);
            if i > 0 {
                assert(rest[i - 1] == paths[i]);
            }
        }
    }
}

/// The collection that a list of file paths gives under a root, from nothing.
pub open spec fn hierarchy_of(root: Seq<char>, paths: Seq<Seq<char>>) -> FileSystemView {
    FileSystemView::empty().rooted(root).added_all(paths)
}

/// The hierarchy of a list of paths under a root holds no path twice and
/// leaves no parent missing, whatever the list and its order. Its root is the
/// given one, and the entry of the root comes first: a directory without a
/// parent.
pub proof fn law_hierarchy(root: Seq<char>, paths: Seq<Seq<char>>)
    ensures
        hierarchy_of(root, paths).wf(),
        hierarchy_of(root, paths).closed(),
        hierarchy_of(root, paths).root == Some(root),
        hierarchy_of(root, paths).entries.len() > 0,
        hierarchy_of(root, paths).entries[0] == fresh_entry(root, None, 0, ContentType::DIRECTORY),
{
    let start = FileSystemView::empty().rooted(root);
    lemma_rooted(FileSystemView::empty(), root);
    assert(!(FileSystemView { root: Some(root), entries: Seq::empty() }).has(root));
    assert(start.entries[0] == fresh_entry(root, None, 0, ContentType::DIRECTORY));
    law_add_all_keeps_parents(start, paths);
}

} // verus!
