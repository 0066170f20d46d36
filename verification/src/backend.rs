//! Trusted bindings to the opendal backend.
//!
//! Every item here is believed, not proved: each wrapper makes one call
//! into opendal and states, over the abstract contents of the operator,
//! what opendal's source shows for that call.  The facade owns its
//! operator exclusively, so the abstract contents change only through
//! these wrappers.  For the process-local memory service the statements
//! are exact; for any other service a wrapper promises nothing beyond
//! the kind of error it can hand back.

use vstd::prelude::*;

use crate::error::FsError;
use crate::fs::EntryKind;
use crate::fs::Scheme;
use crate::model::empty_store;
use crate::model::ls_entries;
use crate::model::path_exists;
use crate::model::scan_hit;
use crate::model::stat_of;
use crate::path::ends_slash;
use crate::path::is_canonical_path;
use crate::path::nroot;
use crate::path::root_path;

verus! {

#[verifier::external_type_specification]
#[verifier::external_body]
pub struct ExOperator(opendal::Operator);

#[verifier::external_type_specification]
#[verifier::external_body]
pub struct ExError(opendal::Error);

/// The abstract contents of the backend behind `op`: every stored key,
/// as a root-relative canonical path, mapped to its bytes.  A key ending
/// in `/` is a directory marker.
pub uninterp spec fn store(op: opendal::Operator) -> Map<Seq<char>, Seq<u8>>;

/// Whether `op` drives the process-local in-memory service, whose
/// primitives are infallible and whose semantics the wrappers state
/// exactly.
pub uninterp spec fn backed_by_memory(op: opendal::Operator) -> bool;

/// The configured root of `op`, in the canonical `/a/b/` form.
pub uninterp spec fn root_of(op: opendal::Operator) -> Seq<char>;

/// The view of an optional owned string; an absent one reads as empty.
pub open spec fn opt_str_view(o: Option<String>) -> Seq<char> {
    match o {
        Some(s) => s@,
        None => Seq::empty(),
    }
}

/// Relies on opendal's `Error::kind`: `NotFound` marks a missing path;
/// every other kind is passed through as a backend failure carrying the
/// error's display message.
#[verifier::external_body]
fn to_fs_err(e: opendal::Error) -> (r: FsError)
    ensures
        r is NotFound || r is Backend,
{
    match e.kind() {
        opendal::ErrorKind::NotFound => FsError::NotFound,
        _ => FsError::Backend(e.to_string()),
    }
}

/// Plain metadata as the backend reports it.
pub(crate) struct RawMeta {
    pub kind: EntryKind,
    pub size: u64,
    pub modified_secs: Option<i64>,
}

/// Relies on `BlockingOperator::create_dir` over the memory service: it
/// stores an empty directory-marker object at exactly this canonical
/// path and cannot fail.  Which service backs the operator, and its
/// configured root, are fixed at construction.
#[verifier::external_body]
pub(crate) fn be_create_dir(op: &mut opendal::Operator, path: &str) -> (r: Result<(), FsError>)
    requires
        is_canonical_path(path@),
        ends_slash(path@),
        path@ != root_path(),
    ensures
        backed_by_memory(*final(op)) == backed_by_memory(*old(op)),
        root_of(*final(op)) == root_of(*old(op)),
        backed_by_memory(*old(op)) ==> r is Ok && store(*final(op)) == store(*old(op)).insert(
            path@,
            Seq::<u8>::empty(),
        ),
        r matches Err(e) ==> (e is NotFound || e is Backend),
{
    op.blocking().create_dir(path).map_err(to_fs_err)
}

/// Relies on `BlockingOperator::exists`, which reports whether a `stat`
/// of the path succeeds: on the memory service the root always exists, a
/// directory path exists exactly when some key lies at or below it, and
/// a file path exactly when a value is stored at it; the check cannot
/// fail there.
#[verifier::external_body]
pub(crate) fn be_exists(op: &opendal::Operator, path: &str) -> (r: Result<bool, FsError>)
    requires
        is_canonical_path(path@),
    ensures
        backed_by_memory(*op) ==> r is Ok,
        backed_by_memory(*op) ==> (r matches Ok(b) ==> b == path_exists(store(*op), path@)),
        r matches Err(e) ==> e is Backend,
{
    op.blocking().exists(path).map_err(to_fs_err)
}

/// Relies on `BlockingOperator::stat` over the memory service: the root,
/// and any directory path with a stored key at or below it, stat as a
/// directory of size zero; a file path stats as a file whose size is the
/// stored byte count; the memory service records no modification time;
/// anything else is NotFound.
#[verifier::external_body]
pub(crate) fn be_stat(op: &opendal::Operator, path: &str) -> (r: Result<RawMeta, FsError>)
    requires
        is_canonical_path(path@),
    ensures
        backed_by_memory(*op) ==> match stat_of(store(*op), path@) {
            Some((is_dir, size)) => r matches Ok(mm) && (mm.kind is Dir <==> is_dir) && (mm.kind
                is File <==> !is_dir) && mm.size as nat == size && mm.modified_secs is None,
            None => r matches Err(e) && e is NotFound,
        },
        r matches Err(e) ==> (e is NotFound || e is Backend),
{
    match op.blocking().stat(path) {
        Ok(m) => Ok(
            RawMeta {
                kind: match m.mode() {
                    opendal::EntryMode::FILE => EntryKind::File,
                    opendal::EntryMode::DIR => EntryKind::Dir,
                    opendal::EntryMode::Unknown => EntryKind::Unknown,
                },
                size: m.content_length(),
                modified_secs: m.last_modified().map(|t| t.timestamp()),
            },
        ),
        Err(e) => Err(to_fs_err(e)),
    }
}

/// Relies on `BlockingOperator::delete` over the memory service: it
/// removes the key if present and succeeds either way.
#[verifier::external_body]
pub(crate) fn be_delete(op: &mut opendal::Operator, path: &str) -> (r: Result<(), FsError>)
    requires
        is_canonical_path(path@),
        path@ != root_path(),
    ensures
        backed_by_memory(*final(op)) == backed_by_memory(*old(op)),
        root_of(*final(op)) == root_of(*old(op)),
        backed_by_memory(*old(op)) ==> r is Ok && store(*final(op)) == store(*old(op)).remove(
            path@,
        ),
        r matches Err(e) ==> (e is NotFound || e is Backend),
{
    op.blocking().delete(path).map_err(to_fs_err)
}

/// Relies on `BlockingOperator::remove_all` over the memory service: it
/// lists every key at or below the directory and deletes each one,
/// infallibly.
#[verifier::external_body]
pub(crate) fn be_remove_all(op: &mut opendal::Operator, path: &str) -> (r: Result<(), FsError>)
    requires
        is_canonical_path(path@),
        ends_slash(path@),
    ensures
        backed_by_memory(*final(op)) == backed_by_memory(*old(op)),
        root_of(*final(op)) == root_of(*old(op)),
        backed_by_memory(*old(op)) ==> r is Ok && store(*final(op)) == store(
            *old(op),
        ).remove_keys(Set::new(|k: Seq<char>| scan_hit(k, path@))),
        r matches Err(e) ==> (e is NotFound || e is Backend),
{
    op.blocking().remove_all(path).map_err(to_fs_err)
}

/// Relies on `BlockingOperator::list` over the memory service: the flat
/// prefix scan is folded into one level of hierarchy, so the returned
/// names are exactly the stored keys at or below the path, each cut
/// after its first segment below it (the path itself appearing when its
/// marker is stored); the scan cannot fail there.
#[verifier::external_body]
pub(crate) fn be_list(op: &opendal::Operator, path: &str) -> (r: Result<Vec<String>, FsError>)
    requires
        is_canonical_path(path@),
    ensures
        backed_by_memory(*op) ==> r is Ok,
        backed_by_memory(*op) ==> (r matches Ok(v) ==> (forall|i: int|
            0 <= i < v@.len() ==> #[trigger] ls_entries(store(*op), path@).contains(v@[i]@))
            && (forall|e: Seq<char>|
            #[trigger] ls_entries(store(*op), path@).contains(e) ==> exists|i: int|
                #![trigger v@[i]]
                0 <= i < v@.len() && v@[i]@ == e)),
        r matches Err(e) ==> e is Backend,
{
    op.blocking().list(path).map(
        |es| es.iter().map(|en| en.path().to_string()).collect(),
    ).map_err(to_fs_err)
}

/// Relies on `BlockingOperator::read` over the memory service: it
/// returns exactly the bytes stored at the key, and NotFound when the
/// key is absent.
#[verifier::external_body]
pub(crate) fn be_read(op: &opendal::Operator, path: &str) -> (r: Result<Vec<u8>, FsError>)
    requires
        is_canonical_path(path@),
        !ends_slash(path@),
    ensures
        backed_by_memory(*op) ==> (r is Ok <==> store(*op).dom().contains(path@)),
        backed_by_memory(*op) ==> (r matches Ok(d) ==> store(*op).dom().contains(path@) && d@
            == store(*op)[path@]),
        backed_by_memory(*op) ==> (r matches Err(e) ==> e is NotFound),
        r matches Err(e) ==> (e is NotFound || e is Backend),
{
    op.blocking().read(path).map(|b| b.to_vec()).map_err(to_fs_err)
}

/// Relies on `BlockingOperator::write` over the memory service: it
/// stores exactly these bytes at the key, overwriting, infallibly.
#[verifier::external_body]
pub(crate) fn be_write(op: &mut opendal::Operator, path: &str, data: Vec<u8>) -> (r: Result<
    (),
    FsError,
>)
    requires
        is_canonical_path(path@),
        !ends_slash(path@),
    ensures
        backed_by_memory(*final(op)) == backed_by_memory(*old(op)),
        root_of(*final(op)) == root_of(*old(op)),
        backed_by_memory(*old(op)) ==> r is Ok && store(*final(op)) == store(*old(op)).insert(
            path@,
            data@,
        ),
        r matches Err(e) ==> (e is NotFound || e is Backend),
{
    op.blocking().write(path, data).map_err(to_fs_err)
}

/// Relies on `Operator::info`: the operator's configured root, already
/// in the canonical `/a/b/` form, is fixed for its lifetime.
#[verifier::external_body]
pub(crate) fn be_info_root(op: &opendal::Operator) -> (r: String)
    ensures
        r@ == root_of(*op),
{
    op.info().root().to_string()
}

/// Relies on `Operator::from_config` with a memory-service config, which
/// cannot fail: the operator starts over a fresh, empty store whose
/// configured root is the canonical form of the requested root.
#[verifier::external_body]
pub(crate) fn be_build_memory(root: Option<String>) -> (r: opendal::Operator)
    ensures
        backed_by_memory(r),
        store(r) == empty_store(),
        root_of(r) == nroot(opt_str_view(root)),
{
    let mut cfg = opendal::services::MemoryConfig::default();
    cfg.root = root;
    opendal::Operator::from_config(cfg).unwrap().finish()
}

/// Relies on `Operator::from_config` with an S3 config: construction
/// only validates the configuration and performs no I/O.  An empty
/// bucket is refused; with a nonempty bucket, an explicit region, and
/// every other knob at its default, validation succeeds.  The operator
/// is not backed by the process-local memory service, and its root is
/// the canonical form of the requested root.
#[verifier::external_body]
pub(crate) fn be_build_s3(
    bucket: String,
    region: String,
    root: Option<String>,
    endpoint: Option<String>,
    access_key_id: Option<String>,
    secret_access_key: Option<String>,
) -> (r: Result<opendal::Operator, FsError>)
    ensures
        bucket@.len() == 0 ==> r is Err,
        bucket@.len() > 0 && region@.len() > 0 ==> r is Ok,
        r matches Ok(op) ==> !backed_by_memory(op),
        r matches Ok(op) ==> root_of(op) == nroot(opt_str_view(root)),
        r matches Err(e) ==> (e is NotFound || e is Backend),
{
    let mut cfg = opendal::services::S3Config::default();
    cfg.bucket = bucket;
    cfg.region = Some(region);
    cfg.root = root;
    cfg.endpoint = endpoint;
    cfg.access_key_id = access_key_id;
    cfg.secret_access_key = secret_access_key;
    opendal::Operator::from_config(cfg).map(|b| b.finish()).map_err(to_fs_err)
}

/// Relies on `Operator::via_iter`: it builds an operator of the given
/// scheme from string options.  For the memory service construction
/// cannot fail (its config ignores unknown options and its builder is
/// infallible), the store starts fresh and empty, and with no options
/// the root stays at `/`.
#[verifier::external_body]
pub(crate) fn be_build(scheme: Scheme, options: Vec<(String, String)>) -> (r: Result<
    opendal::Operator,
    FsError,
>)
    ensures
        scheme is Memory ==> r is Ok,
        r matches Ok(op) ==> (backed_by_memory(op) <==> scheme is Memory),
        scheme is Memory ==> (r matches Ok(op) ==> store(op) == empty_store()),
        scheme is Memory && options@.len() == 0 ==> (r matches Ok(op) ==> root_of(op)
            == root_path()),
        r matches Err(e) ==> (e is NotFound || e is Backend),
{
    let sch = match scheme {
        Scheme::Memory => opendal::Scheme::Memory,
        Scheme::S3 => opendal::Scheme::S3,
    };
    opendal::Operator::via_iter(sch, options).map_err(to_fs_err)
}

} // verus!
