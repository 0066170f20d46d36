//! Backend-specific factories.
//!
//! One facade type serves every scheme; these factories only configure
//! and build the operator it drives.

use vstd::prelude::*;

use crate::backend::be_build_memory;
use crate::backend::be_build_s3;
use crate::backend::opt_str_view;
use crate::error::FsError;
use crate::fs::OpendalFileSystem;
use crate::model::empty_store;
use crate::path::nroot;

verus! {

/// Configuration of the in-memory service.
#[derive(Clone, Debug, Default)]
pub struct MemoryConfig {
    /// The root all paths are resolved under.
    pub root: Option<String>,
}

/// Factory for filesystems over the process-local in-memory service.
pub struct MemoryFileSystem;

impl MemoryFileSystem {
    /// A filesystem over a fresh, empty in-memory store, rooted at
    /// `root` (or at `/` when none is given).
    pub fn new(root: Option<String>) -> (r: OpendalFileSystem)
        ensures
            r.is_memory_backed(),
            r@ == empty_store(),
            r.root_view() == nroot(opt_str_view(root)),
    {
        OpendalFileSystem::wrap(be_build_memory(root))
    }

    /// A filesystem built from a `MemoryConfig`.
    pub fn with_config(cfg: MemoryConfig) -> (r: OpendalFileSystem)
        ensures
            r.is_memory_backed(),
            r@ == empty_store(),
            r.root_view() == nroot(opt_str_view(cfg.root)),
    {
        MemoryFileSystem::new(cfg.root)
    }
}

/// Factory for filesystems over an S3-compatible service.
pub struct S3FileSystem;

impl S3FileSystem {
    /// A filesystem over an S3-compatible service.  Construction only
    /// validates the configuration and performs no I/O: an empty bucket
    /// is refused, and a nonempty bucket with an explicit region is
    /// accepted.  The facade's operations use the backend's blocking
    /// interface, which the S3 service does not offer, so they return a
    /// Backend error at run time; the configuration itself, root
    /// included, is carried into the operator.
    pub fn new(
        bucket: String,
        region: String,
        root: Option<String>,
        endpoint: Option<String>,
        access_key_id: Option<String>,
        secret_access_key: Option<String>,
    ) -> (r: Result<OpendalFileSystem, FsError>)
        ensures
            bucket@.len() == 0 ==> r is Err,
            bucket@.len() > 0 && region@.len() > 0 ==> r is Ok,
            r matches Ok(fs) ==> !fs.is_memory_backed(),
            r matches Ok(fs) ==> fs.root_view() == nroot(opt_str_view(root)),
    {
        match be_build_s3(bucket, region, root, endpoint, access_key_id, secret_access_key) {
            Ok(op) => Ok(OpendalFileSystem::wrap(op)),
            Err(e) => Err(e),
        }
    }
}

} // verus!
