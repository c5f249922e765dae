use file_tree::drawing::{compose_output, frame, rule, summary, SHORT};
use file_tree::entry::{ContentType, FileContent};
use file_tree::error::Error;
use file_tree::filesystem::FileSystem;

fn names(list: &[&str]) -> Vec<String> {
    list.iter().map(|s| s.to_string()).collect()
}

fn edge_list(edges: &[file_tree::tree::TreeEdge]) -> Vec<(String, String)> {
    edges.iter().map(|e| (e.parent.clone(), e.child.clone())).collect()
}

fn without_colours(text: &str) -> String {
    let mut plain = String::new();
    let mut in_code = false;
    for c in text.chars() {
        if in_code {
            in_code = c != 'm';
        } else if c == '\u{1b}' {
            in_code = true;
        } else {
            plain.push(c);
        }
    }
    plain
}

fn pair(parent: &str, child: &str) -> (String, String) {
    (parent.to_string(), child.to_string())
}

#[test]
fn the_tree_has_a_node_for_each_entry() {
    let mut fs = FileSystem::new();
    fs.from_str_list(names(&["/a/b/c.txt", "/a/e.txt"]), Some("/a")).unwrap();
    let tree = fs.build_graph();
    let keys: Vec<&str> = tree.nodes.iter().map(|n| n.key.as_str()).collect();
    let labels: Vec<&str> = tree.nodes.iter().map(|n| n.label.as_str()).collect();
    assert_eq!(keys, vec!["/a", "/a/b/c.txt", "/a/b", "/a/e.txt"]);
    assert_eq!(labels, vec!["a", "c.txt", "b", "e.txt"]);
    for node in &tree.nodes {
        assert_eq!(node.entry.path, node.key);
        assert_eq!(node.entry.name, node.label);
    }
    assert_eq!(tree.nodes[1].entry.content_type, ContentType::FILE);
    assert_eq!(tree.nodes[2].entry.content_type, ContentType::DIRECTORY);
}

#[test]
fn the_tree_has_an_edge_from_each_parent_to_its_child() {
    let mut fs = FileSystem::new();
    fs.from_str_list(names(&["/a/b/c.txt", "/a/e.txt"]), Some("/a")).unwrap();
    let tree = fs.build_graph();
    assert_eq!(
        edge_list(&tree.edges),
        vec![pair("/a/b", "/a/b/c.txt"), pair("/a", "/a/b"), pair("/a", "/a/e.txt")]
    );
    assert!(tree.dangling.is_empty());
    for edge in &tree.edges {
        assert!(tree.nodes.iter().any(|n| n.key == edge.parent));
        assert!(tree.nodes.iter().any(|n| n.key == edge.child));
    }
}

#[test]
fn an_edge_from_a_parent_that_is_not_held_dangles() {
    let list = vec![
        FileContent::new("/a", None, 0, ContentType::DIRECTORY),
        FileContent::new("/a/b", Some("/a".to_string()), 1, ContentType::FILE),
        FileContent::new("/x/y", Some("/x".to_string()), 2, ContentType::FILE),
        FileContent::new("/a/c", Some("/a".to_string()), 3, ContentType::FILE),
    ];
    let fs = FileSystem::from(list);
    let tree = fs.build_graph();
    assert_eq!(tree.nodes.len(), 4);
    assert_eq!(edge_list(&tree.edges), vec![pair("/a", "/a/b"), pair("/a", "/a/c")]);
    assert_eq!(edge_list(&tree.dangling), vec![pair("/x", "/x/y")]);
}

#[test]
fn a_node_is_located_by_its_key() {
    let mut fs = FileSystem::new();
    fs.from_str_list(names(&["/a/b/c.txt", "/a/e.txt"]), Some("/a")).unwrap();
    let tree = fs.build_graph();
    assert_eq!(tree.locate("/a"), Ok(0));
    assert_eq!(tree.locate("/a/b"), Ok(2));
    assert_eq!(tree.locate("/a/e.txt"), Ok(3));
}

#[test]
fn a_key_that_no_node_has_is_a_missing_root() {
    let mut fs = FileSystem::new();
    fs.from_str_list(names(&["/a/b/c.txt"]), Some("/a")).unwrap();
    let tree = fs.build_graph();
    assert_eq!(tree.locate("/b"), Err(Error::RootNodeMissing));
    assert_eq!(tree.locate(""), Err(Error::RootNodeMissing));
    assert_eq!(FileSystem::new().build_graph().locate("/a"), Err(Error::RootNodeMissing));
}

#[test]
fn the_tree_of_an_empty_collection_is_empty() {
    let tree = FileSystem::new().build_graph();
    assert!(tree.nodes.is_empty());
    assert!(tree.edges.is_empty());
    assert!(tree.dangling.is_empty());
}

#[test]
fn a_single_path_is_drawn_as_one_node_without_edges() {
    let d = FileSystem::print_file_list(names(&["/x/y.txt"]), None, None).unwrap();
    assert_eq!(d.root, "/x/y.txt");
    assert_eq!(d.root_node, 0);
    assert_eq!(d.count, 1);
    assert_eq!(d.max_level, None);
    assert_eq!(d.tree.nodes.len(), 1);
    assert_eq!(d.tree.nodes[0].key, "/x/y.txt");
    assert_eq!(d.tree.nodes[0].label, "/x/y.txt");
    assert!(d.tree.edges.is_empty());
    assert!(d.tree.dangling.is_empty());
}

#[test]
fn the_root_node_is_labelled_with_its_whole_path() {
    let files = names(&["/top/a/b/c.txt", "/top/a/d.txt"]);
    let d = FileSystem::print_file_list(files, None, Some("/top/a")).unwrap();
    assert_eq!(d.root, "/top/a");
    assert_eq!(d.tree.nodes[d.root_node].key, "/top/a");
    assert_eq!(d.tree.nodes[d.root_node].label, "/top/a");
    assert_eq!(d.tree.nodes[d.root_node].entry.name, "a");
    for (i, node) in d.tree.nodes.iter().enumerate() {
        if i != d.root_node {
            assert_eq!(node.label, node.entry.name);
        }
    }
}

#[test]
fn a_depth_limit_leaves_the_count_and_the_tree_whole() {
    let files = names(&["/r/a/b/c.txt", "/r/a/d.txt", "/r/e.txt"]);
    let limited = FileSystem::print_file_list(files.clone(), Some(1), Some("/r")).unwrap();
    let whole = FileSystem::print_file_list(files, None, Some("/r")).unwrap();
    assert_eq!(limited.max_level, Some(1));
    assert_eq!(whole.max_level, None);
    assert_eq!(limited.count, 6);
    assert_eq!(whole.count, 6);
    assert_eq!(limited.tree.nodes.len(), 6);
    assert_eq!(limited.tree.edges.len(), 5);
    assert!(limited.tree.nodes.iter().any(|n| n.key == "/r/a/b/c.txt"));
    let line = "═".repeat(30);
    assert_eq!(without_colours(&limited.summary), format!("{}\n#files: 6\n{}", line, line));
    assert_eq!(without_colours(&whole.summary), format!("{}\n#files: 6\n{}", line, line));
}

#[test]
fn three_files_under_a_root_are_drawn_with_five_nodes() {
    let files = names(&["/a/b/c.txt", "/a/b/d.txt", "/a/e.txt"]);
    let d = FileSystem::print_file_list(files, Some(3), Some("/a")).unwrap();
    assert_eq!(d.count, 5);
    assert_eq!(d.tree.nodes.len(), 5);
    assert_eq!(d.tree.edges.len(), 4);
    assert!(d.tree.dangling.is_empty());
    assert_eq!(d.tree.nodes[d.root_node].key, "/a");
}

#[test]
fn the_root_is_inferred_for_the_drawing() {
    let files = names(&["/a/b/c.txt", "/a/b/d.txt", "/a/e.txt"]);
    let d = FileSystem::print_file_list(files, None, None).unwrap();
    assert_eq!(d.root, "/a");
    assert_eq!(d.count, 5);
}

#[test]
fn absolute_paths_that_share_nothing_else_are_drawn_from_the_root_directory() {
    let d = FileSystem::print_file_list(names(&["/a/x", "/b/y"]), None, None).unwrap();
    assert_eq!(d.root, "/");
    assert_eq!(d.count, 5);
    assert_eq!(d.tree.nodes[d.root_node].key, "/");
    assert_eq!(d.tree.nodes[d.root_node].label, "/");
    assert_eq!(
        edge_list(&d.tree.edges),
        vec![pair("/a", "/a/x"), pair("/", "/a"), pair("/b", "/b/y"), pair("/", "/b")]
    );
    assert!(d.tree.dangling.is_empty());
}

#[test]
fn the_tree_below_the_root_directory_hangs_from_it() {
    let d = FileSystem::print_file_list(names(&["/etc/x"]), None, Some("/")).unwrap();
    assert_eq!(d.root, "/");
    assert_eq!(d.count, 3);
    assert_eq!(edge_list(&d.tree.edges), vec![pair("/etc", "/etc/x"), pair("/", "/etc")]);
    assert!(d.tree.dangling.is_empty());
}

#[test]
fn paths_without_a_common_root_cannot_be_drawn() {
    let r = FileSystem::print_file_list(names(&["a/x", "b/y"]), None, None);
    assert_eq!(r.unwrap_err(), Error::NoCommonRoot);
}

#[test]
fn no_paths_and_no_root_cannot_be_drawn() {
    let r = FileSystem::print_file_list(Vec::new(), Some(2), None);
    assert_eq!(r.unwrap_err(), Error::InvalidInput);
}

#[test]
fn an_empty_directory_is_drawn_as_its_root() {
    let d = FileSystem::print_file_list(Vec::new(), None, Some("/empty")).unwrap();
    assert_eq!(d.count, 1);
    assert_eq!(d.root, "/empty");
    assert_eq!(d.tree.nodes.len(), 1);
}

#[test]
fn a_collection_without_root_cannot_be_drawn() {
    let mut fs = FileSystem::new();
    fs.add("/a/b", 1, ContentType::FILE);
    assert_eq!(fs.draw(None).unwrap_err(), Error::NoCommonRoot);
    fs.set_root("/a");
    let d = fs.draw(Some(2)).unwrap();
    assert_eq!(d.root, "/a");
    assert_eq!(d.root_node, 1);
    assert_eq!(d.max_level, Some(2));
    assert_eq!(d.count, 3);
}

#[test]
fn rule_is_thirty_double_lines() {
    assert_eq!(SHORT, 30);
    assert_eq!(rule(), "═".repeat(30));
    assert_eq!(rule().chars().count(), 30);
}

#[test]
fn frame_lays_the_parts_out_on_three_lines() {
    assert_eq!(frame("==", "#files:", "12", "--"), "==\n#files: 12\n--");
    assert_eq!(frame("", "", "", ""), "\n \n");
}

#[test]
fn compose_output_puts_the_summary_below_the_tree() {
    assert_eq!(compose_output("tree", "summary"), "tree\nsummary");
    assert_eq!(compose_output("", ""), "\n");
}

#[test]
fn summary_is_plain_without_colours_and_painted_with_them() {
    let line = "═".repeat(30);
    colored::control::set_override(false);
    assert_eq!(summary(5), format!("{}\n#files: 5\n{}", line, line));
    assert_eq!(summary(0), format!("{}\n#files: 0\n{}", line, line));
    assert_eq!(summary(1234), format!("{}\n#files: 1234\n{}", line, line));
    colored::control::set_override(true);
    let blue_line = format!("\u{1b}[34m{}\u{1b}[0m", line);
    assert_eq!(
        summary(42),
        format!("{}\n\u{1b}[34m#files:\u{1b}[0m \u{1b}[36m42\u{1b}[0m\n{}", blue_line, blue_line)
    );
    colored::control::unset_override();
}
