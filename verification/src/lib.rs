//! Incremental source-file cache for a language server over a typesetting
//! compiler.
//!
//! The crate tracks every file an editor session knows about, reconciles
//! editor-driven edits with on-disk state, and exposes that state through the
//! synchronous query interface an incremental compiler requires.  All state
//! transitions are verified; disk reads, locks, and the compiler itself live
//! outside the library and hand their outcomes in as plain values.

pub mod diagnostics;
pub mod position;
pub mod source;
pub mod source_manager;
pub mod world;

use vstd::prelude::*;

verus! {

/// Why a file could not be read or resolved.
///
/// Every I/O failure the library is handed is classified as one of these;
/// the reason string of [`FileError::Other`] carries whatever detail the
/// reader of the file reported.
#[derive(Debug, Clone, PartialEq, Eq)]
pub enum FileError {
    /// The file does not exist.
    NotFound,
    /// The file exists but may not be read.
    PermissionDenied,
    /// Any other failure, with its reason.
    Other(String),
}

/// The mathematical value of a [`FileError`].
pub ghost enum FileErrorView {
    NotFound,
    PermissionDenied,
    Other(Seq<char>),
}

impl View for FileError {
    type V = FileErrorView;

    open spec fn view(&self) -> FileErrorView {
        match self {
            FileError::NotFound => FileErrorView::NotFound,
            FileError::PermissionDenied => FileErrorView::PermissionDenied,
            FileError::Other(reason) => FileErrorView::Other(reason@),
        }
    }
}

} // verus!
