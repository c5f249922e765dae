//! One file or directory of the hierarchy, and its kind.

use vstd::prelude::*;
use vstd::string::StringExecFns;
use crate::path::{file_name, name_of, same_text, text_of};

verus! {

/// What kind of object an entry stands for.
#[allow(non_camel_case_types)]
#[derive(Debug, PartialEq, Eq, Clone, Copy, Structural)]
pub enum ContentType {
    DIRECTORY,
    FILE,
    UNKNOWN,
}

impl ContentType {
    /// The kind that a piece of text names: `DIRECTORY` and `FILE` name
    /// themselves, every other text names `UNKNOWN`.
    pub open spec fn of_text(text: Seq<char>) -> ContentType {
        if text == "DIRECTORY"@ {
            ContentType::DIRECTORY
        } else if text == "FILE"@ {
            ContentType::FILE
        } else {
            ContentType::UNKNOWN
        }
    }

    /// The text that names a kind.
    pub open spec fn text(self) -> Seq<char> {
        match self {
            ContentType::DIRECTORY => "DIRECTORY"@,
            ContentType::FILE => "FILE"@,
            ContentType::UNKNOWN => "UNKNOWN"@,
        }
    }

    /// Reads a kind from its name.
    pub fn from(content_type: &str) -> (kind: ContentType)
        ensures
            kind == Self::of_text(content_type@),
    {
        if same_text(content_type, "DIRECTORY") {
            ContentType::DIRECTORY
        } else if same_text(content_type, "FILE") {
            ContentType::FILE
        } else {
            ContentType::UNKNOWN
        }
    }

    /// The name of the kind, as `from` reads it.
    pub fn name(&self) -> (text: String)
        ensures
            text@ == self.text(),
    {
        match self {
            ContentType::DIRECTORY => String::from_str("DIRECTORY"),
            ContentType::FILE => String::from_str("FILE"),
            ContentType::UNKNOWN => String::from_str("UNKNOWN"),
        }
    }
}

/// Reading the name of a kind gives the kind back.
pub proof fn law_kind_round_trip(kind: ContentType)
    ensures
        ContentType::of_text(kind.text()) == kind,
{
    reveal_strlit("DIRECTORY");
    reveal_strlit("FILE");
    reveal_strlit("UNKNOWN");
    assert("DIRECTORY"@.len() == 9);
    assert("FILE"@.len() == 4);
    assert("UNKNOWN"@.len() == 7);
}

/// One file or directory: its path, which is its identity, and what is known
/// of it.
#[derive(Debug)]
pub struct FileContent {
    /// The last segment of `path`.
    pub name: String,
    /// The whole path; two entries with one path are the same entry.
    pub path: String,
    /// The path of the directory that holds the entry; `None` for a root.
    pub parent: Option<String>,
    /// The size in bytes; 0 for a directory.
    pub length: usize,
    /// Whether the entry is a file or a directory.
    pub content_type: ContentType,
    /// A fingerprint of the content, where one is known.
    pub e_tag: Option<String>,
    /// Milliseconds since the epoch; 0 where unknown.
    pub modification_time: i64,
    /// Milliseconds since the epoch; 0 where unknown.
    pub access_time: i64,
}

/// What a `FileContent` holds, as mathematical values.
pub struct FileContentView {
    pub name: Seq<char>,
    pub path: Seq<char>,
    pub parent: Option<Seq<char>>,
    pub length: usize,
    pub content_type: ContentType,
    pub e_tag: Option<Seq<char>>,
    pub modification_time: i64,
    pub access_time: i64,
}

impl View for FileContent {
    type V = FileContentView;

    open spec fn view(&self) -> FileContentView {
        FileContentView {
            name: self.name@,
            path: self.path@,
            parent: text_of(self.parent),
            length: self.length,
            content_type: self.content_type,
            e_tag: text_of(self.e_tag),
            modification_time: self.modification_time,
            access_time: self.access_time,
        }
    }
}

/// The entry that `FileContent::new` makes: named after the last segment of
/// its path, with no fingerprint and no times.
pub open spec fn fresh_entry(
    path: Seq<char>,
    parent: Option<Seq<char>>,
    length: usize,
    content_type: ContentType,
) -> FileContentView {
    FileContentView {
        name: name_of(path),
        path,
        parent,
        length,
        content_type,
        e_tag: None,
        modification_time: 0,
        access_time: 0,
    }
}

/// A copy of an optional string.
pub fn copy_text(text: &Option<String>) -> (copy: Option<String>)
    ensures
        text_of(copy) == text_of(*text),
{
    match text {
        Some(t) => Some(t.clone()),
        None => None,
    }
}

impl FileContent {
    /// An entry for `path` with the given parent, size and kind.
    pub fn new(
        path: &str,
        parent: Option<String>,
        length: usize,
        content_type: ContentType,
    ) -> (entry: FileContent)
        ensures
            entry@ == fresh_entry(path@, text_of(parent), length, content_type),
    {
        FileContent {
            path: String::from_str(path),
            name: FileContent::get_name(path),
            parent,
            length,
            content_type,
            e_tag: None,
            modification_time: 0,
            access_time: 0,
        }
    }

    /// The last segment of `path`: what follows its last separator. The root
    /// directory and a path without a separator are their own names.
    pub fn get_name(path: &str) -> (name: String)
        ensures
            name@ == name_of(path@),
    {
        file_name(path)
    }
}

impl Clone for FileContent {
    fn clone(&self) -> (copy: FileContent)
        ensures
            copy@ == self@,
    {
        FileContent {
            name: self.name.clone(),
            path: self.path.clone(),
            parent: copy_text(&self.parent),
            length: self.length,
            content_type: self.content_type,
            e_tag: copy_text(&self.e_tag),
            modification_time: self.modification_time,
            access_time: self.access_time,
        }
    }
}

impl PartialEq for FileContent {
    /// Two entries are equal when their paths are: what else they hold does
    /// not count.
    fn eq(&self, other: &FileContent) -> (equal: bool) {
        self.path == other.path
    }
}

impl Eq for FileContent {

}

/// `String`'s `hash`, which feeds the text to the hasher. Nothing is claimed
/// of what the hasher holds afterwards.
pub assume_specification<H: std::hash::Hasher>[ <String as std::hash::Hash>::hash ](
    text: &String,
    state: &mut H,
);

impl std::hash::Hash for FileContent {
    /// Hashes the path alone, as equality compares the path alone.
    fn hash<H: std::hash::Hasher>(&self, state: &mut H) {
        self.path.hash(state);
    }
}

impl vstd::std_specs::cmp::PartialEqSpecImpl for FileContent {
    open spec fn obeys_eq_spec() -> bool {
        true
    }

    open spec fn eq_spec(&self, other: &FileContent) -> bool {
        self.path@ == other.path@
    }
}

} // verus!
