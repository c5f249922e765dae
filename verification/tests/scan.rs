use file_tree::entry::ContentType;
use file_tree::filesystem::FileSystem;
use file_tree::local::{FileFacts, FoundFile};
use file_tree::scan::{Listing, Scan, ScanError, Sighting};

fn file(path: &str) -> Sighting {
    Sighting::File(path.to_string())
}

fn dir(path: &str) -> Sighting {
    Sighting::Directory(path.to_string())
}

#[test]
fn a_new_scan_has_the_root_to_list() {
    let mut scan = Scan::new("/r");
    assert!(!scan.is_done());
    assert!(scan.files().is_empty());
    assert!(scan.errors().is_empty());
    assert_eq!(scan.next(), Some("/r".to_string()));
    assert!(scan.is_done());
    assert_eq!(scan.next(), None);
}

#[test]
fn files_are_found_and_directories_are_listed_later() {
    let mut scan = Scan::new("/r");
    assert_eq!(scan.next(), Some("/r".to_string()));
    let taken = scan.listed("/r", vec![file("/r/a.txt"), dir("/r/d"), file("/r/b.txt")]);
    assert_eq!(taken, 3);
    assert_eq!(scan.files(), &vec!["/r/a.txt".to_string(), "/r/b.txt".to_string()]);
    assert_eq!(scan.next(), Some("/r/d".to_string()));
    assert_eq!(scan.listed("/r/d", vec![file("/r/d/c.txt")]), 1);
    assert_eq!(scan.next(), None);
    assert!(scan.errors().is_empty());
    assert_eq!(scan.into_files(), vec!["/r/a.txt", "/r/b.txt", "/r/d/c.txt"]);
}

#[test]
fn symbolic_links_are_left_out_in_silence() {
    let mut scan = Scan::new("/r");
    scan.next();
    let seen = vec![Sighting::Other("/r/link".to_string()), file("/r/a.txt")];
    assert_eq!(scan.listed("/r", seen), 2);
    assert_eq!(scan.files(), &vec!["/r/a.txt".to_string()]);
    assert!(scan.errors().is_empty());
    assert!(scan.is_done());
}

#[test]
fn an_entry_of_unknown_kind_is_noted_and_left_out() {
    let mut scan = Scan::new("/r");
    scan.next();
    let seen = vec![
        file("/r/a.txt"),
        Sighting::UnknownKind { path: "/r/odd".to_string(), detail: "no type".to_string() },
        file("/r/b.txt"),
    ];
    assert_eq!(scan.listed("/r", seen), 3);
    assert_eq!(scan.files(), &vec!["/r/a.txt".to_string(), "/r/b.txt".to_string()]);
    assert_eq!(scan.errors().len(), 1);
    assert!(matches!(
        &scan.errors()[0],
        ScanError::Kind { path, detail } if path == "/r/odd" && detail == "no type"
    ));
    assert_eq!(scan.errors()[0].message(), "Error file type: \"/r/odd\" (no type)");
}

#[test]
fn a_listing_breaks_off_at_an_entry_that_cannot_be_read() {
    let mut scan = Scan::new("/r");
    scan.next();
    let seen = vec![
        file("/r/a.txt"),
        Sighting::Unreadable { detail: "gone".to_string() },
        file("/r/b.txt"),
        dir("/r/d"),
    ];
    assert_eq!(scan.listed("/r", seen), 1);
    assert_eq!(scan.files(), &vec!["/r/a.txt".to_string()]);
    assert!(scan.is_done());
    assert_eq!(scan.errors().len(), 1);
    assert!(matches!(
        &scan.errors()[0],
        ScanError::Entry { folder, detail } if folder == "/r" && detail == "gone"
    ));
    assert_eq!(scan.errors()[0].message(), "Error reading folder. (gone)");
}

#[test]
fn an_unreadable_directory_does_not_hide_its_siblings() {
    let mut scan = Scan::new("/r");
    let mut listed = Vec::new();
    while let Some(folder) = scan.next() {
        listed.push(folder.clone());
        match folder.as_str() {
            "/r" => {
                scan.listed("/r", vec![dir("/r/one"), dir("/r/two"), dir("/r/three")]);
            }
            "/r/one" => {
                scan.listed("/r/one", vec![file("/r/one/a.txt"), file("/r/one/b.txt")]);
            }
            "/r/two" => scan.failed("/r/two", "Permission denied"),
            "/r/three" => {
                scan.listed("/r/three", vec![file("/r/three/c.txt")]);
            }
            other => panic!("{} was never seen", other),
        }
    }
    assert_eq!(listed.len(), 4);
    assert_eq!(scan.errors().len(), 1);
    assert!(matches!(
        &scan.errors()[0],
        ScanError::Folder { path, detail } if path == "/r/two" && detail == "Permission denied"
    ));
    assert_eq!(scan.errors()[0].message(), "Error reading folder. (Permission denied)");
    let files = scan.into_files();
    assert_eq!(files.len(), 3);
    for path in ["/r/one/a.txt", "/r/one/b.txt", "/r/three/c.txt"] {
        assert!(files.iter().any(|f| f == path));
    }
    let drawing = FileSystem::print_file_list(files, None, Some("/r")).unwrap();
    assert_eq!(drawing.count, 6);
    for path in ["/r/one/a.txt", "/r/one/b.txt", "/r/three/c.txt", "/r/one", "/r/three"] {
        assert!(drawing.tree.nodes.iter().any(|n| n.key == path));
    }
    assert!(!drawing.tree.nodes.iter().any(|n| n.key == "/r/two"));
}

#[test]
fn a_failed_listing_keeps_what_was_found() {
    let mut scan = Scan::new("/r");
    scan.next();
    scan.listed("/r", vec![file("/r/a.txt"), dir("/r/d"), dir("/r/e")]);
    assert_eq!(scan.next(), Some("/r/e".to_string()));
    scan.failed("/r/e", "vanished");
    assert_eq!(scan.files(), &vec!["/r/a.txt".to_string()]);
    assert_eq!(scan.next(), Some("/r/d".to_string()));
    assert_eq!(scan.errors().len(), 1);
}

#[test]
fn a_listing_is_recorded_as_failed_or_listed() {
    let mut scan = Scan::new("/r");
    assert_eq!(scan.next(), Some("/r".to_string()));
    scan.record("/r", Listing::Seen { sightings: vec![file("/r/a"), dir("/r/d"), dir("/r/e")] });
    assert_eq!(scan.next(), Some("/r/e".to_string()));
    scan.record("/r/e", Listing::Failed { detail: "denied".to_string() });
    assert_eq!(scan.next(), Some("/r/d".to_string()));
    scan.record(
        "/r/d",
        Listing::Seen {
            sightings: vec![
                file("/r/d/b"),
                Sighting::Unreadable { detail: "gone".to_string() },
                file("/r/d/c"),
            ],
        },
    );
    assert_eq!(scan.next(), None);
    assert_eq!(scan.files(), &vec!["/r/a".to_string(), "/r/d/b".to_string()]);
    assert_eq!(scan.errors().len(), 2);
    assert!(matches!(&scan.errors()[0], ScanError::Folder { path, .. } if path == "/r/e"));
    assert!(matches!(&scan.errors()[1], ScanError::Entry { folder, .. } if folder == "/r/d"));
}

fn listing_of(folder: &str) -> Listing {
    match folder {
        "/r" => Listing::Seen { sightings: vec![dir("/r/d1"), dir("/r/d2"), dir("/r/d3")] },
        "/r/d1" => Listing::Seen { sightings: vec![file("/r/d1/f1"), dir("/r/d1/deep")] },
        "/r/d1/deep" => Listing::Seen { sightings: vec![file("/r/d1/deep/f2")] },
        "/r/d2" => Listing::Failed { detail: "Permission denied".to_string() },
        "/r/d3" => Listing::Seen { sightings: vec![file("/r/d3/f3"), file("/r/d3/f4")] },
        other => panic!("{} was never seen", other),
    }
}

#[test]
fn files_of_readable_siblings_are_held_with_what_was_read_of_them() {
    let mut scan = Scan::new("/r");
    while let Some(folder) = scan.next() {
        scan.record(&folder, listing_of(&folder));
    }
    assert_eq!(scan.errors().len(), 1);
    let found: Vec<FoundFile> = scan
        .into_files()
        .into_iter()
        .map(|path| {
            let facts = if path == "/r/d3/f4" {
                None
            } else {
                Some(FileFacts { length: path.len(), accessed: 20, modified: 10 })
            };
            FoundFile { path, facts }
        })
        .collect();
    assert_eq!(found.len(), 4);
    let mut fs = FileSystem::new();
    fs.get_local_files(found);
    assert_eq!(fs.len(), 3);
    for path in ["/r/d1/f1", "/r/d1/deep/f2", "/r/d3/f3"] {
        let entry = fs.get(path).expect("a file of a readable directory is held");
        assert_eq!(entry.content_type, ContentType::FILE);
        assert_eq!(entry.length, path.len());
        assert_eq!(entry.access_time, 20_000);
        assert_eq!(entry.modification_time, 10_000);
    }
    assert!(!fs.contains("/r/d3/f4"));
    assert!(fs.entries().iter().all(|e| !e.path.starts_with("/r/d2")));
    assert!(fs.entries().iter().all(|e| e.content_type == ContentType::FILE));
}

#[test]
fn found_files_go_in_once_and_in_order() {
    let found = vec![
        FoundFile {
            path: "/d/a".to_string(),
            facts: Some(FileFacts { length: 1, accessed: 2, modified: 3 }),
        },
        FoundFile { path: "/d/b".to_string(), facts: None },
        FoundFile {
            path: "/d/a".to_string(),
            facts: Some(FileFacts { length: 9, accessed: 9, modified: 9 }),
        },
        FoundFile {
            path: "/d/c".to_string(),
            facts: Some(FileFacts { length: 4, accessed: 5, modified: 6 }),
        },
    ];
    let mut fs = FileSystem::new();
    fs.add("/d/c", 0, ContentType::DIRECTORY);
    let before = fs.len();
    fs.get_local_files(found);
    assert_eq!(fs.len(), before + 1);
    assert_eq!(fs.get("/d/a").unwrap().length, 1);
    assert_eq!(fs.get("/d/a").unwrap().modification_time, 3_000);
    assert_eq!(fs.get("/d/c").unwrap().content_type, ContentType::DIRECTORY);
    assert!(!fs.contains("/d/b"));
    assert_eq!(fs.entries().last().unwrap().path, "/d/a");
}
