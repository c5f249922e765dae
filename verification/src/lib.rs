//! Reconstructs a directory hierarchy from a flat collection of file paths.

pub mod drawing;
pub mod entry;
pub mod error;
pub mod filesystem;
pub mod local;
pub mod model;
pub mod path;
pub mod scan;
pub mod stamp;
pub mod text;
pub mod tree;
pub mod volume;
