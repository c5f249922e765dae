use file_tree::entry::ContentType;
use file_tree::error::Error;
use file_tree::filesystem::FileSystem;
use file_tree::path::{common_root, file_name, parent};

/// Every text of up to `longest` characters over `a`, `b` and the separator.
fn small_paths(longest: usize) -> Vec<String> {
    let mut all = vec![String::new()];
    let mut last = vec![String::new()];
    for _ in 0..longest {
        let mut next = Vec::new();
        for text in &last {
            for c in ['a', 'b', '/'] {
                let mut longer = text.clone();
                longer.push(c);
                next.push(longer);
            }
        }
        all.extend(next.iter().cloned());
        last = next;
    }
    all
}

fn leads(prefix: &str, path: &str) -> bool {
    prefix.is_empty()
        || (path.starts_with(prefix)
            && (prefix.len() == path.len()
                || path[prefix.len()..].starts_with('/')
                || prefix == "/"))
}

fn longest_shared(paths: &[String]) -> String {
    let first = &paths[0];
    let mut best = String::new();
    for cut in 0..=first.len() {
        let prefix = &first[..cut];
        if paths.iter().all(|p| leads(prefix, p)) {
            best = prefix.to_string();
        }
    }
    best
}

#[test]
fn common_root_of_every_small_pair_is_the_longest_shared_prefix() {
    let all = small_paths(4);
    assert_eq!(all.len(), 121);
    for a in &all {
        for b in &all {
            let files = vec![a.clone(), b.clone()];
            let expected = longest_shared(&files);
            let found = common_root(&files);
            if expected.is_empty() {
                assert_eq!(found, Err(Error::NoCommonRoot), "{:?} {:?}", a, b);
            } else {
                assert_eq!(found, Ok(expected), "{:?} {:?}", a, b);
            }
        }
    }
}

#[test]
fn common_root_of_small_triples_is_the_longest_shared_prefix() {
    let all = small_paths(3);
    for a in &all {
        for b in &all {
            for c in &all {
                let files = vec![a.clone(), b.clone(), c.clone()];
                let expected = longest_shared(&files);
                let found = common_root(&files);
                if expected.is_empty() {
                    assert_eq!(found, Err(Error::NoCommonRoot));
                } else {
                    assert_eq!(found, Ok(expected));
                }
            }
        }
    }
}

#[test]
fn parent_and_name_of_every_small_path_split_it_at_the_last_separator() {
    for path in small_paths(5) {
        match path.rfind('/') {
            Some(0) if path.len() == 1 => {
                assert_eq!(parent(&path), None);
                assert_eq!(file_name(&path), "/");
            }
            Some(0) => {
                assert_eq!(parent(&path), Some("/".to_string()));
                assert_eq!(file_name(&path), path[1..]);
            }
            Some(at) => {
                assert_eq!(parent(&path), Some(path[..at].to_string()));
                assert_eq!(file_name(&path), path[at + 1..]);
            }
            None => {
                assert_eq!(parent(&path), None);
                assert_eq!(file_name(&path), path);
            }
        }
    }
}

fn sound(fs: &FileSystem) -> bool {
    let list = fs.entries();
    let parents = list.iter().all(|e| match &e.parent {
        Some(p) => fs.contains(p),
        None => true,
    });
    let once = (0..list.len()).all(|i| (0..i).all(|j| list[i].path != list[j].path));
    let root = match fs.root() {
        Some(r) => fs.contains(&r),
        None => true,
    };
    parents && once && root
}

fn paths_of(fs: &FileSystem) -> Vec<String> {
    let mut paths: Vec<String> = fs.entries().iter().map(|e| e.path.clone()).collect();
    paths.sort();
    paths
}

#[test]
fn no_parent_dangles_for_any_small_pair_in_either_order() {
    let all = small_paths(3);
    for a in &all {
        for b in &all {
            let mut one = FileSystem::new();
            let mut two = FileSystem::new();
            let first = one.from_str_list(vec![a.clone(), b.clone()], None);
            let second = two.from_str_list(vec![b.clone(), a.clone()], None);
            assert_eq!(first, Ok(()));
            assert_eq!(second, Ok(()));
            assert!(sound(&one), "{:?} {:?}", a, b);
            assert!(sound(&two), "{:?} {:?}", a, b);
            assert_eq!(one.root(), two.root());
            assert_eq!(paths_of(&one), paths_of(&two));
        }
    }
}

#[test]
fn no_parent_dangles_for_any_small_pair_under_any_small_root() {
    let all = small_paths(2);
    for root in &all {
        for a in &all {
            for b in &all {
                let mut fs = FileSystem::new();
                assert_eq!(fs.from_str_list(vec![a.clone(), b.clone()], Some(root)), Ok(()));
                assert!(sound(&fs), "{:?} {:?} {:?}", root, a, b);
                assert_eq!(fs.root(), Some(root.clone()));
                assert_eq!(fs.get(root).unwrap().parent, None);
            }
        }
    }
}

#[test]
fn adding_any_small_path_again_changes_nothing() {
    for root in [None, Some("a"), Some("/a"), Some(""), Some("/")] {
        for path in small_paths(4) {
            let mut fs = FileSystem::new();
            if let Some(r) = root {
                fs.set_root(r);
            }
            fs.add(&path, 3, ContentType::FILE);
            let before = paths_of(&fs);
            let kinds: Vec<ContentType> = fs.entries().iter().map(|e| e.content_type).collect();
            fs.add(&path, 8, ContentType::UNKNOWN);
            assert_eq!(paths_of(&fs), before);
            let after: Vec<ContentType> = fs.entries().iter().map(|e| e.content_type).collect();
            assert_eq!(after, kinds);
            assert_eq!(fs.entries().iter().filter(|e| e.path == path).count(), 1);
        }
    }
}

#[test]
fn every_small_absolute_pair_has_a_root() {
    for a in small_paths(3) {
        for b in small_paths(3) {
            if a.starts_with('/') && b.starts_with('/') {
                let mut fs = FileSystem::new();
                assert_eq!(fs.from_str_list(vec![a.clone(), b.clone()], None), Ok(()));
                let root = fs.root().expect("absolute paths share the root directory");
                assert!(root.starts_with('/'));
                assert!(leads(&root, &a) && leads(&root, &b));
                assert!(FileSystem::print_file_list(vec![a.clone(), b.clone()], None, None).is_ok());
            }
        }
    }
}

#[test]
fn walking_up_from_any_small_path_below_a_root_ends_at_the_root() {
    for root in small_paths(2) {
        for path in small_paths(4) {
            if root.is_empty() || !leads(&root, &path) {
                continue;
            }
            let mut fs = FileSystem::new();
            fs.set_root(&root);
            fs.add(&path, 1, ContentType::FILE);
            for entry in fs.entries() {
                assert!(leads(&root, &entry.path), "{:?} {:?} {:?}", root, path, entry.path);
                let mut at = entry.path.clone();
                while at != root {
                    at = fs.get(&at).unwrap().parent.clone().expect("the walk ends at the root");
                }
            }
        }
    }
}

/// Every absolute path of up to `deepest` segments taken from `a`, `b` and
/// `ab`, without empty segments and without a separator at its end.
fn tidy_absolute_paths(deepest: usize) -> Vec<String> {
    let mut all = vec!["/".to_string()];
    let mut last = vec![String::new()];
    for _ in 0..deepest {
        let mut next = Vec::new();
        for text in &last {
            for segment in ["a", "b", "ab"] {
                next.push(format!("{}/{}", text, segment));
            }
        }
        all.extend(next.iter().cloned());
        last = next;
    }
    all
}

fn shared_by_components(paths: &[String]) -> std::path::PathBuf {
    let mut shared = std::path::PathBuf::from(&paths[0]);
    for path in &paths[1..] {
        let other = std::path::PathBuf::from(path);
        shared = shared
            .components()
            .zip(other.components())
            .take_while(|(a, b)| a == b)
            .map(|(a, _)| a)
            .collect();
        if shared.as_os_str().is_empty() {
            break;
        }
    }
    shared
}

#[test]
fn parent_and_name_of_tidy_absolute_paths_are_those_of_the_path_type() {
    for path in tidy_absolute_paths(3) {
        let as_path = std::path::Path::new(&path);
        let above = as_path.parent().map(|p| p.to_string_lossy().to_string());
        assert_eq!(parent(&path), above, "{:?}", path);
        let name = match as_path.file_name() {
            Some(name) => name.to_string_lossy().to_string(),
            None => path.clone(),
        };
        assert_eq!(file_name(&path), name, "{:?}", path);
    }
}

#[test]
fn common_root_of_tidy_absolute_paths_is_shared_component_by_component() {
    let all = tidy_absolute_paths(2);
    assert_eq!(all.len(), 13);
    for a in &all {
        for b in &all {
            for c in &all {
                let files = vec![a.clone(), b.clone(), c.clone()];
                let shared = shared_by_components(&files).to_string_lossy().to_string();
                assert!(!shared.is_empty());
                assert_eq!(common_root(&files), Ok(shared.clone()), "{:?}", files);
                for path in &files {
                    assert!(std::path::Path::new(path).starts_with(&shared));
                }
                let mut fs = FileSystem::new();
                assert_eq!(fs.from_str_list(files, None), Ok(()));
                assert_eq!(fs.root(), Some(shared));
                assert!(sound(&fs));
            }
        }
    }
}

#[test]
fn the_hierarchy_of_tidy_absolute_paths_follows_the_parents_of_the_path_type() {
    for path in tidy_absolute_paths(3) {
        let mut fs = FileSystem::new();
        fs.add(&path, 1, ContentType::FILE);
        let mut expected = Vec::new();
        let mut at = Some(std::path::Path::new(&path));
        while let Some(here) = at {
            expected.push(here.to_string_lossy().to_string());
            at = here.parent();
        }
        let held: Vec<String> = fs.entries().iter().map(|e| e.path.clone()).collect();
        assert_eq!(held, expected, "{:?}", path);
    }
}
