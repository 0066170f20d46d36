use vstd::prelude::*;

verus! {

/// The kind of a filesystem error, without its payload.
///
/// The facade's contracts and the functional model speak of kinds; the
/// executable [`FsError`] carries extra diagnostics (the offending children
/// of a non-empty directory, the backend's own message).
#[derive(Clone, Copy, Debug, PartialEq, Eq, Structural)]
pub enum FsErrorKind {
    /// The path is malformed or semantically wrong for the operation.
    InvalidPath,
    /// The target path does not exist.
    NotFound,
    /// The target exists although the caller required absence.
    AlreadyExists,
    /// A non-recursive removal hit a directory that still has children.
    DirectoryNotEmpty,
    /// The backend does not supply the requested attribute.
    Unavailable,
    /// Any other backend failure, passed through opaquely.
    Backend,
}

/// An error returned by the filesystem facade.
#[derive(Debug, PartialEq, Eq)]
pub enum FsError {
    /// The path is malformed or semantically wrong for the operation.
    InvalidPath,
    /// The target path does not exist.
    NotFound,
    /// The target exists although the caller required absence.
    AlreadyExists,
    /// A non-recursive removal hit a directory that still has children;
    /// the payload names them.
    DirectoryNotEmpty(Vec<String>),
    /// The backend does not supply the requested attribute.
    Unavailable,
    /// Any other backend failure, with the backend's message preserved.
    Backend(String),
}

impl FsError {
    /// The kind of this error.
    pub open spec fn kind(&self) -> FsErrorKind {
        match self {
            FsError::InvalidPath => FsErrorKind::InvalidPath,
            FsError::NotFound => FsErrorKind::NotFound,
            FsError::AlreadyExists => FsErrorKind::AlreadyExists,
            FsError::DirectoryNotEmpty(_) => FsErrorKind::DirectoryNotEmpty,
            FsError::Unavailable => FsErrorKind::Unavailable,
            FsError::Backend(_) => FsErrorKind::Backend,
        }
    }
}

} // verus!
