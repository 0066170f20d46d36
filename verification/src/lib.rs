//! A virtual filesystem facade over an object-storage backend.
//!
//! The facade offers POSIX-like directory semantics (`mkdir`, `mkdirs`,
//! `rmdir`, `ls`, `info`, `modified`, `exists`, `rm_file`, whole-object
//! `read`/`write`) on top of a flat object store accessed through
//! opendal's `Operator`.  Paths are canonicalized before use, and a
//! trailing slash is the sole marker that a path denotes a directory.
//!
//! The behaviour of every operation is specified against a functional
//! model of the store: a map from canonical paths to byte sequences,
//! where keys ending in `/` are directory markers and directories also
//! exist "virtually" whenever anything is stored below them.  For a
//! memory-backed facade the contracts pin the outcome of every call
//! exactly; for other backends they state what holds of any outcome.
//!
//! Two deliberate limits.  A path whose canonical form begins or ends
//! with white space is refused with `InvalidPath`: the backend trims
//! every path it receives, so such a path cannot be addressed verbatim.
//! And the facade drives the backend through its blocking interface,
//! which the S3 service does not offer, so every operation on an
//! S3-backed facade returns a `Backend` error at run time; only its
//! construction and configuration validation are usable.

pub mod backend;
pub mod error;
pub mod fs;
pub mod model;
pub mod path;
pub mod services;

pub use error::FsError;
pub use error::FsErrorKind;
pub use fs::EntryKind;
pub use fs::FileStat;
pub use fs::OpendalFileSystem;
pub use fs::Scheme;
pub use services::MemoryConfig;
pub use services::MemoryFileSystem;
pub use services::S3FileSystem;
