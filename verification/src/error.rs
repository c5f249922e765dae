//! The failures that building and drawing a hierarchy can report.

use vstd::prelude::*;
use vstd::string::StringExecFns;

verus! {

/// Why a hierarchy could not be built or drawn.
#[derive(Debug, PartialEq, Eq)]
pub enum Error {
    /// A path does not lie below the root it was given with.
    NoRootPath { root: String, path: String },
    /// A root had to be found from an empty list of paths.
    InvalidInput,
    /// The listed paths share no leading component.
    NoCommonRoot,
    /// The root path is not among the nodes of the tree.
    RootNodeMissing,
}

/// The text that `message` gives for an error.
pub open spec fn message_of(e: Error) -> Seq<char> {
    match e {
        Error::NoRootPath { root, path } => "Root directory does not match with path: "@ + root@
            + " -> "@ + path@,
        Error::InvalidInput => "No paths to find a root from!"@,
        Error::NoCommonRoot => "No root for printing as tree!"@,
        Error::RootNodeMissing => "Root node not found!"@,
    }
}

impl Error {
    /// The error as a line of text for the operator.
    pub fn message(&self) -> (text: String)
        ensures
            text@ == message_of(*self),
    {
        match self {
            Error::NoRootPath { root, path } => {
                let mut text = String::from_str("Root directory does not match with path: ");
                text.append(root.as_str());
                text.append(" -> ");
                text.append(path.as_str());
                text
            },
            Error::InvalidInput => String::from_str("No paths to find a root from!"),
            Error::NoCommonRoot => String::from_str("No root for printing as tree!"),
            Error::RootNodeMissing => String::from_str("Root node not found!"),
        }
    }
}

} // verus!
