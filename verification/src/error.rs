//! The failures that file-system operations report.

use vstd::prelude::*;
use vstd::string::StringExecFns;

verus! {

/// Why a file-system operation failed.
#[derive(Clone, Debug, PartialEq, Eq)]
pub enum FsError {
    /// No inode carries the given id.
    NotFound,
    /// The parent named in a create request does not exist.
    ParentNotFound,
    /// The operation needs a directory and was given a file.
    NotADirectory,
    /// Resolution stopped at this path component: the directory reached
    /// so far has no child of that name.
    PathComponentNotFound(String),
    /// A directory names a child that the store does not hold.
    InternalInconsistency,
    /// An open request named an inode that does not exist.
    InvalidInode,
    /// No open descriptor carries the given handle.
    BadDescriptor,
    /// The request itself is malformed: an empty name, or a byte list that
    /// is not comma-separated decimal.
    InvalidInput,
}

/// `FsError` as contracts speak of it: the same kinds, with the path
/// component as a sequence of characters.
pub enum ErrorKind {
    NotFound,
    ParentNotFound,
    NotADirectory,
    PathComponentNotFound(Seq<char>),
    InternalInconsistency,
    InvalidInode,
    BadDescriptor,
    InvalidInput,
}

impl View for FsError {
    type V = ErrorKind;

    open spec fn view(&self) -> ErrorKind {
        match *self {
            FsError::NotFound => ErrorKind::NotFound,
            FsError::ParentNotFound => ErrorKind::ParentNotFound,
            FsError::NotADirectory => ErrorKind::NotADirectory,
            FsError::PathComponentNotFound(c) => ErrorKind::PathComponentNotFound(c@),
            FsError::InternalInconsistency => ErrorKind::InternalInconsistency,
            FsError::InvalidInode => ErrorKind::InvalidInode,
            FsError::BadDescriptor => ErrorKind::BadDescriptor,
            FsError::InvalidInput => ErrorKind::InvalidInput,
        }
    }
}

impl ErrorKind {
    /// The human-readable form of the failure.
    pub open spec fn message(self) -> Seq<char> {
        match self {
            ErrorKind::NotFound => "Inode not found"@,
            ErrorKind::ParentNotFound => "Parent inode not found"@,
            ErrorKind::NotADirectory => "Not a directory"@,
            ErrorKind::PathComponentNotFound(c) => "Path component not found: "@ + c,
            ErrorKind::InternalInconsistency => "Inode not found during traversal"@,
            ErrorKind::InvalidInode => "Inode not found"@,
            ErrorKind::BadDescriptor => "File descriptor not found"@,
            ErrorKind::InvalidInput => "Invalid input"@,
        }
    }
}

/// A result with its error seen through its view.
pub open spec fn outcome<T>(r: Result<T, FsError>) -> Result<T, ErrorKind> {
    match r {
        Ok(v) => Ok(v),
        Err(e) => Err(e@),
    }
}

impl FsError {
    /// The human-readable form of the failure.
    pub fn message(&self) -> (r: String)
        ensures
            r@ == self@.message(),
    {
        match self {
            FsError::NotFound => String::from_str("Inode not found"),
            FsError::ParentNotFound => String::from_str("Parent inode not found"),
            FsError::NotADirectory => String::from_str("Not a directory"),
            FsError::PathComponentNotFound(c) => {
                let mut s = String::from_str("Path component not found: ");
                s.append(c.as_str());
                s
            },
            FsError::InternalInconsistency => String::from_str("Inode not found during traversal"),
            FsError::InvalidInode => String::from_str("Inode not found"),
            FsError::BadDescriptor => String::from_str("File descriptor not found"),
            FsError::InvalidInput => String::from_str("Invalid input"),
        }
    }
}

} // verus!
