//! Paths as plain strings: separators, parents, names and common roots.
//!
//! A separator at the start of a path is the root directory, the first
//! component of an absolute path. It is the parent of what stands directly
//! below it; it has no parent itself and is its own name.

use vstd::prelude::*;
use vstd::string::StrSliceExecFns;
use crate::error::Error;

verus! {

/// The character that separates the components of a path.
pub const SEPARATOR: char = '/';

/// The characters of an optional string.
pub open spec fn text_of(s: Option<String>) -> Option<Seq<char>> {
    match s {
        Some(t) => Some(t@),
        None => None,
    }
}

/// The parent of `p`: the part of `p` before its last separator. Where that
/// separator stands at the start of `p`, the parent is the root directory, and
/// the root directory itself has no parent. A path without a separator has no
/// parent.
pub open spec fn parent_of(p: Seq<char>) -> Option<Seq<char>> {
    match p.index_of_last(SEPARATOR) {
        Some(i) => if i > 0 {
            Some(p.take(i))
        } else if p.len() > 1 {
            Some(p.take(1))
        } else {
            None
        },
        None => None,
    }
}

/// The name of `p`: the part of `p` after its last separator. The root
/// directory and a path without a separator are their own names.
pub open spec fn name_of(p: Seq<char>) -> Seq<char> {
    match p.index_of_last(SEPARATOR) {
        Some(i) => if i == 0 && p.len() == 1 {
            p
        } else {
            p.skip(i + 1)
        },
        None => p,
    }
}

/// `i` is the position of the last separator of `p`.
pub open spec fn is_last_separator(p: Seq<char>, i: int) -> bool {
    &&& 0 <= i < p.len()
    &&& p[i] == SEPARATOR
    &&& forall|j: int| i < j < p.len() ==> p[j] != SEPARATOR
}

/// The last separator of a path is where `index_of_last` finds it.
pub proof fn lemma_last_separator(p: Seq<char>, i: int)
    requires
        is_last_separator(p, i),
    ensures
        p.index_of_last(SEPARATOR) == Some(i),
{
    p.index_of_last_ensures(SEPARATOR);
    assert(p.contains(SEPARATOR));
}

/// A path without a separator has no parent and is its own name.
pub proof fn lemma_no_separator(p: Seq<char>)
    requires
        forall|j: int| 0 <= j < p.len() ==> p[j] != SEPARATOR,
    ensures
        p.index_of_last(SEPARATOR) is None,
        parent_of(p) is None,
        name_of(p) == p,
{
    p.index_of_last_ensures(SEPARATOR);
}

/// A parent is shorter than its path, and is the path itself or a directory
/// above it.
pub proof fn lemma_parent_of(p: Seq<char>)
    ensures
        parent_of(p) matches Some(q) ==> q.len() < p.len() && is_ancestor_or_self(q, p),
{
    p.index_of_last_ensures(SEPARATOR);
}

/// The characters of `s`, in order.
pub fn chars_of(s: &str) -> (v: Vec<char>)
    ensures
        v@ == s@,
{
    broadcast use vstd::string::axiom_spec_iter;

    let mut v: Vec<char> = Vec::new();
    for c in it: s.chars()
        invariant
            it.seq() == s@,
            v@ == s@.take(it.index()),
    {
        v.push(c);
    }
    v
}

/// The position of the last separator among `chars`, if there is one.
pub fn last_separator(chars: &Vec<char>) -> (r: Option<usize>)
    ensures
        match r {
            Some(i) => is_last_separator(chars@, i as int),
            None => forall|j: int| 0 <= j < chars@.len() ==> chars@[j] != SEPARATOR,
        },
{
    let mut i: usize = chars.len();
    while i > 0
        invariant
            i <= chars@.len(),
            forall|j: int| i <= j < chars@.len() ==> chars@[j] != SEPARATOR,
        decreases i,
    {
        i = i - 1;
        if chars[i] == SEPARATOR {
            proof {
                lemma_last_separator(chars@, i as int);
            }
            return Some(i);
        }
    }
    proof {
        lemma_no_separator(chars@);
    }
    None
}

/// The parent of `path`: what stands before its last separator, the root
/// directory for a path directly below it, and nothing for the root directory
/// and for a path without a separator.
pub fn parent(path: &str) -> (r: Option<String>)
    ensures
        text_of(r) == parent_of(path@),
{
    let chars = chars_of(path);
    let len: usize = chars.len();
    match last_separator(&chars) {
        Some(i) => {
            proof {
                lemma_last_separator(path@, i as int);
            }
            if i > 0 {
                Some(path.substring_char(0, i).to_owned())
            } else if len > 1 {
                Some(path.substring_char(0, 1).to_owned())
            } else {
                None
            }
        },
        None => {
            proof {
                lemma_no_separator(path@);
            }
            None
        },
    }
}

/// The name of `path`: what stands after its last separator; the root
/// directory and a path without a separator are their own names.
pub fn file_name(path: &str) -> (r: String)
    ensures
        r@ == name_of(path@),
{
    let chars = chars_of(path);
    let len: usize = chars.len();
    match last_separator(&chars) {
        Some(i) => {
            proof {
                lemma_last_separator(path@, i as int);
            }
            assert(i < len);
            if i == 0 && len == 1 {
                path.to_owned()
            } else {
                path.substring_char(i + 1, len).to_owned()
            }
        },
        None => {
            proof {
                lemma_no_separator(path@);
            }
            path.to_owned()
        },
    }
}

/// The texts of a list of strings, in order.
pub open spec fn texts(list: Seq<String>) -> Seq<Seq<char>> {
    Seq::new(list.len(), |i: int| list[i]@)
}

/// `a` is the root directory: the separator alone.
pub open spec fn is_root_directory(a: Seq<char>) -> bool {
    a.len() == 1 && a[0] == SEPARATOR
}

/// `a` is `p` itself or a directory above it: `p`, its parent, the parent of
/// that, and so on. That is `p`, or `p` cut just before one of its separators
/// that does not stand at its start, or the root directory where `p` starts
/// with it.
pub open spec fn is_ancestor_or_self(a: Seq<char>, p: Seq<char>) -> bool {
    &&& a.len() <= p.len()
    &&& a == p.take(a.len() as int)
    &&& {
        ||| a.len() == p.len()
        ||| a.len() > 0 && p[a.len() as int] == SEPARATOR
        ||| is_root_directory(a)
    }
}

/// `r` is made of leading components of `p`: it is empty, or it is `p` or a
/// directory above `p`. The root directory is the first component of a path
/// that starts with it.
pub open spec fn is_component_prefix(r: Seq<char>, p: Seq<char>) -> bool {
    r.len() == 0 || is_ancestor_or_self(r, p)
}

/// `r` is made of leading components of each of the first `count` paths.
pub open spec fn leads_first(r: Seq<char>, paths: Seq<Seq<char>>, count: int) -> bool {
    forall|i: int| 0 <= i < count ==> is_component_prefix(r, #[trigger] paths[i])
}

/// `r` is made of leading components of every path in `paths`.
pub open spec fn is_shared_prefix(r: Seq<char>, paths: Seq<Seq<char>>) -> bool {
    leads_first(r, paths, paths.len() as int)
}

/// `r` is the longest run of leading components that all of `paths` share.
pub open spec fn is_common_root(r: Seq<char>, paths: Seq<Seq<char>>) -> bool {
    &&& is_shared_prefix(r, paths)
    &&& forall|q: Seq<char>| is_shared_prefix(q, paths) ==> q.len() <= r.len()
}

/// Leading components of leading components are leading components.
pub proof fn lemma_component_prefix_trans(q: Seq<char>, r: Seq<char>, p: Seq<char>)
    requires
        is_component_prefix(q, r),
        is_component_prefix(r, p),
    ensures
        is_component_prefix(q, p),
{
    if q.len() > 0 {
        assert(r.len() > 0);
        assert(q =~= p.take(q.len() as int));
        if q.len() < r.len() {
            assert(r[q.len() as int] == p[q.len() as int]);
        }
    }
}

/// Of two runs of leading components of one path, the shorter leads the longer.
pub proof fn lemma_component_prefix_nested(q: Seq<char>, r: Seq<char>, p: Seq<char>)
    requires
        is_component_prefix(q, p),
        is_component_prefix(r, p),
        q.len() <= r.len(),
    ensures
        is_component_prefix(q, r),
{
    if q.len() > 0 {
        assert(q =~= r.take(q.len() as int));
        if q.len() < r.len() {
            assert(r[q.len() as int] == p[q.len() as int]);
        }
    }
}

/// Two runs of leading components of one path that are equally long are equal.
pub proof fn lemma_component_prefix_unique(q: Seq<char>, r: Seq<char>, p: Seq<char>)
    requires
        is_component_prefix(q, p),
        is_component_prefix(r, p),
        q.len() == r.len(),
    ensures
        q == r,
{
    assert(q =~= r);
}

/// A list of paths has one common root only: two longest shared runs of
/// leading components are the same text.
pub proof fn law_common_root_is_unique(r: Seq<char>, q: Seq<char>, paths: Seq<Seq<char>>)
    requires
        paths.len() > 0,
        is_common_root(r, paths),
        is_common_root(q, paths),
    ensures
        r == q,
{
    assert(is_component_prefix(r, paths[0]));
    assert(is_component_prefix(q, paths[0]));
    lemma_component_prefix_unique(r, q, paths[0]);
}

/// `p` is absolute: it starts with the root directory.
pub open spec fn is_absolute(p: Seq<char>) -> bool {
    p.len() > 0 && p[0] == SEPARATOR
}

/// Every path of `paths` is absolute.
pub open spec fn all_absolute(paths: Seq<Seq<char>>) -> bool {
    forall|i: int| 0 <= i < paths.len() ==> is_absolute(#[trigger] paths[i])
}

/// Absolute paths always have a common root: they share at least the root
/// directory, so their common root is not empty and is absolute itself.
pub proof fn law_absolute_paths_have_a_root(r: Seq<char>, paths: Seq<Seq<char>>)
    requires
        paths.len() > 0,
        all_absolute(paths),
        is_common_root(r, paths),
    ensures
        r.len() > 0,
        is_absolute(r),
{
    let top = seq![SEPARATOR];
    assert forall|i: int| 0 <= i < paths.len() implies is_component_prefix(
        top,
        #[trigger] paths[i],
    ) by {
        assert(is_absolute(paths[i]));
        assert(top =~= paths[i].take(1));
    }
    assert(is_shared_prefix(top, paths));
    assert(is_component_prefix(r, paths[0]));
    assert(r[0] == paths[0][0]);
}

/// A path is `p` or above it exactly when it is `p`, or is the parent of `p`
/// or above that.
pub proof fn lemma_ancestor_step(x: Seq<char>, p: Seq<char>)
    ensures
        is_ancestor_or_self(x, p) <==> (x == p || (parent_of(p) matches Some(q)
            && is_ancestor_or_self(x, q))),
        is_ancestor_or_self(p, p),
        is_ancestor_or_self(x, p) && x != p ==> x.len() < p.len(),
{
    p.index_of_last_ensures(SEPARATOR);
    assert(p.take(p.len() as int) =~= p);
    if is_ancestor_or_self(x, p) && x != p {
        if x.len() == p.len() {
            assert(x =~= p);
        }
        if !(x.len() > 0 && p[x.len() as int] == SEPARATOR) {
            assert(p[0] == x[0]);
        }
        assert(p.contains(SEPARATOR));
        let i = p.index_of_last(SEPARATOR).unwrap();
        if i == 0 {
            assert(x =~= p.take(1));
            assert(parent_of(p) == Some(x));
            assert(x.take(x.len() as int) =~= x);
        } else {
            let q = p.take(i);
            assert(parent_of(p) == Some(q));
            if !is_root_directory(x) {
                assert(p[x.len() as int] == SEPARATOR);
            }
            assert(x.len() <= i);
            assert(x =~= q.take(x.len() as int));
            if x.len() < q.len() {
                assert(q[x.len() as int] == p[x.len() as int]);
            }
            assert(is_ancestor_or_self(x, q));
        }
    }
    if let Some(q) = parent_of(p) {
        if is_ancestor_or_self(x, q) {
            let i = p.index_of_last(SEPARATOR).unwrap();
            assert(q.len() < p.len());
            assert(x =~= p.take(x.len() as int));
            if x.len() < q.len() {
                assert(q[x.len() as int] == p[x.len() as int]);
            } else if i > 0 {
                assert(p[x.len() as int] == SEPARATOR);
            } else {
                assert(q =~= x);
                assert(q[0] == p[0]);
            }
            assert(is_ancestor_or_self(x, p));
        }
    }
}

/// Whether two strings hold the same characters.
pub fn same_text(a: &str, b: &str) -> (same: bool)
    ensures
        same == (a@ == b@),
{
    let x = chars_of(a);
    let y = chars_of(b);
    same_chars(&x, &y)
}

/// Whether two lists of characters are equal.
pub fn same_chars(a: &Vec<char>, b: &Vec<char>) -> (same: bool)
    ensures
        same == (a@ == b@),
{
    if a.len() != b.len() {
        return false;
    }
    let mut i: usize = 0;
    while i < a.len()
        invariant
            i <= a@.len(),
            a@.len() == b@.len(),
            forall|j: int| 0 <= j < i ==> a@[j] == b@[j],
        decreases a@.len() - i,
    {
        if a[i] != b[i] {
            return false;
        }
        i = i + 1;
    }
    assert(a@ =~= b@);
    true
}

/// The length of the longest run of leading components that the first `n`
/// characters of `a` and the whole of `b` share.
fn shared_length(a: &Vec<char>, n: usize, b: &Vec<char>) -> (k: usize)
    requires
        n <= a@.len(),
    ensures
        k <= n,
        is_component_prefix(a@.take(k as int), a@.take(n as int)),
        is_component_prefix(a@.take(k as int), b@),
        forall|q: Seq<char>|
            is_component_prefix(q, a@.take(n as int)) && is_component_prefix(q, b@) ==> q.len()
                <= k,
{
    let ghost c = a@.take(n as int);
    let mut i: usize = 0;
    let mut best: usize = 0;
    loop
        invariant_except_break
            forall|j: int| 0 <= j < i ==> a@[j] == b@[j],
            forall|q: Seq<char>|
                is_component_prefix(q, c) && is_component_prefix(q, b@) && q.len() < i
                    ==> q.len() <= best,
        invariant
            n <= a@.len(),
            c == a@.take(n as int),
            best <= i <= n,
            i <= b@.len(),
            is_component_prefix(a@.take(best as int), c),
            is_component_prefix(a@.take(best as int), b@),
        ensures
            forall|q: Seq<char>|
                is_component_prefix(q, c) && is_component_prefix(q, b@) ==> q.len() <= best,
        decreases n - i,
    {
        let edge_a = i == n || (i > 0 && a[i] == SEPARATOR) || (i == 1 && a[0] == SEPARATOR);
        let edge_b = i == b.len() || (i > 0 && b[i] == SEPARATOR) || (i == 1 && b[0]
            == SEPARATOR);
        if edge_a && edge_b {
            best = i;
            proof {
                assert(a@.take(i as int) =~= c.take(i as int));
                assert(a@.take(i as int) =~= b@.take(i as int));
            }
        }
        proof {
            assert forall|q: Seq<char>|
                is_component_prefix(q, c) && is_component_prefix(q, b@) && q.len()
                    <= i implies q.len() <= best by {
                if q.len() == i && i > 0 {
                    assert(edge_a && edge_b);
                }
            }
        }
        if i == n || i == b.len() || a[i] != b[i] {
            proof {
                assert forall|q: Seq<char>|
                    is_component_prefix(q, c) && is_component_prefix(q, b@) implies q.len()
                    <= best by {
                    if q.len() > i {
                        assert(q[i as int] == c[i as int]);
                        assert(q[i as int] == b@[i as int]);
                    }
                }
            }
            break ;
        }
        i = i + 1;
    }
    best
}

/// The longest run of leading components that all of `files` share.
///
/// An empty list is refused as `InvalidInput`. Paths that share no leading
/// component, so that the longest shared run is empty, give `NoCommonRoot`.
pub fn common_root(files: &Vec<String>) -> (r: Result<String, Error>)
    ensures
        match r {
            Ok(root) => files@.len() > 0 && root@.len() > 0 && is_common_root(
                root@,
                texts(files@),
            ),
            Err(e) => if files@.len() == 0 {
                e == Error::InvalidInput
            } else {
                e == Error::NoCommonRoot && is_common_root(Seq::empty(), texts(files@))
            },
        },
        files@.len() > 0 && all_absolute(texts(files@)) ==> r is Ok,
{
    if files.len() == 0 {
        return Err(Error::InvalidInput);
    }
    let ghost paths = texts(files@);
    let first = chars_of(files[0].as_str());
    let mut n: usize = first.len();
    let mut i: usize = 1;
    assert(first@.take(n as int) =~= paths[0]);
    while i < files.len() && n > 0
        invariant
            paths == texts(files@),
            first@ == paths[0],
            1 <= i <= files@.len(),
            n <= first@.len(),
            leads_first(first@.take(n as int), paths, i as int),
            forall|q: Seq<char>| leads_first(q, paths, i as int) ==> q.len() <= n,
        decreases files@.len() - i,
    {
        let other = chars_of(files[i].as_str());
        let k = shared_length(&first, n, &other);
        proof {
            let old_root = first@.take(n as int);
            let new_root = first@.take(k as int);
            assert(other@ == paths[i as int]);
            assert forall|j: int| 0 <= j < i + 1 implies is_component_prefix(
                new_root,
                #[trigger] paths[j],
            ) by {
                if j < i {
                    lemma_component_prefix_trans(new_root, old_root, paths[j]);
                }
            }
            assert forall|q: Seq<char>| leads_first(q, paths, i + 1) implies q.len() <= k by {
                assert(leads_first(q, paths, i as int));
                assert(is_component_prefix(q, paths[0]));
                assert(is_component_prefix(old_root, paths[0]));
                lemma_component_prefix_nested(q, old_root, paths[0]);
                assert(is_component_prefix(q, paths[i as int]));
            }
        }
        n = k;
        i = i + 1;
    }
    if n == 0 {
        proof {
            assert forall|q: Seq<char>| is_shared_prefix(q, paths) implies q.len() <= 0 by {
                assert(leads_first(q, paths, i as int));
            }
            if all_absolute(paths) {
                law_absolute_paths_have_a_root(Seq::empty(), paths);
            }
        }
        Err(Error::NoCommonRoot)
    } else {
        Ok(files[0].as_str().substring_char(0, n).to_owned())
    }
}

/// The root to anchor a hierarchy at: `root` as it is where one is given,
/// else the common root of `files`.
///
/// Without a given root an empty list is refused as `InvalidInput`, and
/// paths that share no leading component give `NoCommonRoot`.
pub fn resolve_root(files: &Vec<String>, root: Option<&str>) -> (r: Result<String, Error>)
    ensures
        match r {
            Ok(found) => match root {
                Some(given) => found@ == given@,
                None => files@.len() > 0 && found@.len() > 0 && is_common_root(
                    found@,
                    texts(files@),
                ),
            },
            Err(e) => root is None && if files@.len() == 0 {
                e == Error::InvalidInput
            } else {
                e == Error::NoCommonRoot && is_common_root(Seq::empty(), texts(files@))
            },
        },
        files@.len() > 0 && all_absolute(texts(files@)) ==> r is Ok,
{
    match root {
        Some(given) => Ok(given.to_owned()),
        None => common_root(files),
    }
}

} // verus!
