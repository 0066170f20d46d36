//! A functional model of the virtual filesystem over a flat object store.
//!
//! The backend is modelled as a map from canonical paths to byte strings.
//! A key ending in `/` is a directory marker; a directory also exists
//! "virtually" as soon as anything is stored below it.  Each operation of
//! the facade has a model function here that computes, from the store and
//! the raw arguments, exactly the outcome the facade produces on a
//! memory-backed operator.

use vstd::prelude::*;

use crate::error::FsErrorKind;
use crate::path::ends_slash;
use crate::path::first_slash;
use crate::path::lemma_first_slash;
use crate::path::lemma_norm_idempotent;
use crate::path::norm;
use crate::path::root_path;
use crate::path::rooted_abs;
use crate::path::ws_clean;

verus! {

/// The abstract contents of a backend: canonical paths mapped to bytes.
pub type Store = Map<Seq<char>, Seq<u8>>;

/// The contents of a freshly built backend: nothing stored.
pub open spec fn empty_store() -> Store {
    Map::empty()
}

/// Whether key `k` lies in the subtree scanned for `q` (string-prefix
/// semantics; the root scans everything).  `q` itself counts.
pub open spec fn scan_hit(k: Seq<char>, q: Seq<char>) -> bool {
    q == root_path() || (q.len() <= k.len() && k.take(q.len() as int) == q)
}

/// Whether anything is stored at or below `q`.
pub open spec fn exists_under(m: Store, q: Seq<char>) -> bool {
    exists|k: Seq<char>| #[trigger] m.dom().contains(k) && scan_hit(k, q)
}

/// Whether `q` exists: the root always does; a directory path exists
/// when anything is stored at or below it; a file path exists when a
/// value is stored at exactly it.
pub open spec fn path_exists(m: Store, q: Seq<char>) -> bool {
    if q == root_path() {
        true
    } else if ends_slash(q) {
        exists_under(m, q)
    } else {
        m.dom().contains(q)
    }
}

/// Metadata of `q`: whether it is a directory, and its size in bytes;
/// `None` when it does not exist.  Directories always report size zero.
pub open spec fn stat_of(m: Store, q: Seq<char>) -> Option<(bool, nat)> {
    if q == root_path() {
        Some((true, 0 as nat))
    } else if ends_slash(q) {
        if exists_under(m, q) {
            Some((true, 0 as nat))
        } else {
            None
        }
    } else if m.dom().contains(q) {
        Some((false, m[q].len()))
    } else {
        None
    }
}

/// The prefix a scan of `q` matches keys against: the root matches all.
pub open spec fn eff_prefix(q: Seq<char>) -> Seq<char> {
    if q == root_path() {
        Seq::empty()
    } else {
        q
    }
}

/// The name under which key `k` appears in a listing of `q`: `k` itself
/// when it lies directly in `q`, otherwise the first-level directory of
/// `k` below `q`, trailing slash included.
pub open spec fn child_entry(q: Seq<char>, k: Seq<char>) -> Seq<char> {
    let p = eff_prefix(q);
    let rest = k.skip(p.len() as int);
    let j = first_slash(rest);
    if j == rest.len() {
        k
    } else {
        k.take(p.len() + j + 1)
    }
}

/// The set of names a listing of `q` returns.
pub open spec fn ls_entries(m: Store, q: Seq<char>) -> Set<Seq<char>> {
    Set::new(
        |e: Seq<char>|
            exists|k: Seq<char>|
                #[trigger] m.dom().contains(k) && scan_hit(k, q) && e == child_entry(q, k),
    )
}

/// Whether a listing of `q` shows anything besides `q` itself.
pub open spec fn has_strict_child(m: Store, q: Seq<char>) -> bool {
    exists|k: Seq<char>| #[trigger] m.dom().contains(k) && scan_hit(k, q) && child_entry(q, k) != q
}

/// The file form of a canonical path: the same path without its
/// directory marker.
pub open spec fn file_form(q: Seq<char>) -> Seq<char> {
    if ends_slash(q) {
        q.drop_last()
    } else {
        q
    }
}

/// Model of `mkdir`: requires a non-root directory path; refuses to
/// touch anything below a parent unless `create_parents` is set; stores
/// an empty directory marker.
pub open spec fn spec_mkdir(m: Store, s: Seq<char>, create_parents: bool) -> Result<
    Store,
    FsErrorKind,
> {
    let q = norm(s);
    if !ends_slash(q) || q == root_path() {
        Err(FsErrorKind::InvalidPath)
    } else if first_slash(q) != q.len() - 1 && !create_parents {
        Err(FsErrorKind::InvalidPath)
    } else if !ws_clean(q) {
        Err(FsErrorKind::InvalidPath)
    } else {
        Ok(m.insert(q, Seq::empty()))
    }
}

/// Model of `mkdirs`: fails when the path already exists and absence was
/// required, otherwise creates the full chain (so the parent restriction
/// of `mkdir` never applies through this entry point).
pub open spec fn spec_mkdirs(m: Store, s: Seq<char>, exist_ok: bool) -> Result<
    Store,
    FsErrorKind,
> {
    let q = norm(s);
    if !ws_clean(q) {
        Err(FsErrorKind::InvalidPath)
    } else if path_exists(m, q) && !exist_ok {
        Err(FsErrorKind::AlreadyExists)
    } else {
        spec_mkdir(m, q, true)
    }
}

/// Model of `rmdir`: a path without the directory marker cannot name an
/// existing directory; a recursive removal clears the whole subtree; a
/// non-recursive one requires the directory to list nothing but itself.
pub open spec fn spec_rmdir(m: Store, s: Seq<char>, recursive: bool) -> Result<
    Store,
    FsErrorKind,
> {
    let q = norm(s);
    if !ends_slash(q) {
        Err(FsErrorKind::NotFound)
    } else if !ws_clean(q) {
        Err(FsErrorKind::InvalidPath)
    } else if !path_exists(m, q) {
        Err(FsErrorKind::NotFound)
    } else if recursive {
        Ok(m.remove_keys(Set::new(|k: Seq<char>| scan_hit(k, q))))
    } else if has_strict_child(m, q) {
        Err(FsErrorKind::DirectoryNotEmpty)
    } else if q == root_path() {
        Ok(m)
    } else {
        Ok(m.remove(q))
    }
}

/// Model of `rm_file`: the target must exist in file or directory form;
/// a directory is refused as InvalidPath; only the file entry is removed.
pub open spec fn spec_rm_file(m: Store, s: Seq<char>) -> Result<Store, FsErrorKind> {
    let q = norm(s);
    if q == root_path() {
        Err(FsErrorKind::InvalidPath)
    } else {
        let f = file_form(q);
        if !ws_clean(f) {
            Err(FsErrorKind::InvalidPath)
        } else if m.dom().contains(f) {
            Ok(m.remove(f))
        } else if exists_under(m, f.push('/')) {
            Err(FsErrorKind::InvalidPath)
        } else {
            Err(FsErrorKind::NotFound)
        }
    }
}

/// Model of `read`: a whole-object read of a file path.
pub open spec fn spec_read(m: Store, s: Seq<char>) -> Result<Seq<u8>, FsErrorKind> {
    let q = norm(s);
    if ends_slash(q) {
        Err(FsErrorKind::InvalidPath)
    } else if !ws_clean(q) {
        Err(FsErrorKind::InvalidPath)
    } else if m.dom().contains(q) {
        Ok(m[q])
    } else {
        Err(FsErrorKind::NotFound)
    }
}

/// Model of `write`: a whole-object overwrite of a file path.
pub open spec fn spec_write(m: Store, s: Seq<char>, data: Seq<u8>) -> Result<Store, FsErrorKind> {
    let q = norm(s);
    if ends_slash(q) {
        Err(FsErrorKind::InvalidPath)
    } else if !ws_clean(q) {
        Err(FsErrorKind::InvalidPath)
    } else {
        Ok(m.insert(q, data))
    }
}

/// Model of `exists`.
pub open spec fn spec_exists(m: Store, s: Seq<char>) -> Result<bool, FsErrorKind> {
    let q = norm(s);
    if !ws_clean(q) {
        Err(FsErrorKind::InvalidPath)
    } else {
        Ok(path_exists(m, q))
    }
}

/// Model of `info`: the root-qualified path, the size, and whether the
/// target is a directory.
pub open spec fn spec_info(m: Store, root: Seq<char>, s: Seq<char>) -> Result<
    (Seq<char>, nat, bool),
    FsErrorKind,
> {
    let q = norm(s);
    if !ws_clean(q) {
        Err(FsErrorKind::InvalidPath)
    } else {
        match stat_of(m, q) {
            Some((is_dir, size)) => Ok((rooted_abs(root, q), size, is_dir)),
            None => Err(FsErrorKind::NotFound),
        }
    }
}

/// Model of `modified` on a memory backend, which stores no modification
/// time: an existing path yields Unavailable, a missing one NotFound.
pub open spec fn spec_modified(m: Store, s: Seq<char>) -> FsErrorKind {
    let q = norm(s);
    if !ws_clean(q) {
        FsErrorKind::InvalidPath
    } else if stat_of(m, q) is Some {
        FsErrorKind::Unavailable
    } else {
        FsErrorKind::NotFound
    }
}

/// A key that lies strictly below `q` appears in the listing of `q`
/// under a name other than `q`.
pub proof fn lemma_child_entry_strict(q: Seq<char>, k: Seq<char>)
    requires
        q != root_path(),
        scan_hit(k, q),
        k != q,
    ensures
        child_entry(q, k) != q,
{
    let rest = k.skip(q.len() as int);
    assert(k.len() > q.len()) by {
        if k.len() == q.len() {
            assert(k.take(q.len() as int) =~= k);
        }
    }
    assert(rest.len() > 0);
    lemma_first_slash(rest);
    let j = first_slash(rest);
    if j == rest.len() {
        assert(child_entry(q, k) == k);
    } else {
        assert(child_entry(q, k).len() == q.len() + j + 1);
    }
}

/// Creating a directory that already exists is harmless: when `mkdir`
/// succeeds, running the very same `mkdir` again succeeds and leaves the
/// store exactly as the first run did.
pub proof fn lemma_mkdir_idempotent(m: Store, s: Seq<char>, create_parents: bool)
    requires
        spec_mkdir(m, s, create_parents) is Ok,
    ensures
        spec_mkdir(spec_mkdir(m, s, create_parents).unwrap(), s, create_parents) == spec_mkdir(
            m,
            s,
            create_parents,
        ),
{
    let q = norm(s);
    let m1 = m.insert(q, Seq::<u8>::empty());
    assert(m1.insert(q, Seq::<u8>::empty()) =~= m1);
}

/// On a fresh backend, `mkdirs` with `exist_ok = false` succeeds and the
/// directory exists afterwards; the same call a second time fails with
/// AlreadyExists.
pub proof fn lemma_mkdirs_fresh(s: Seq<char>)
    requires
        ends_slash(norm(s)),
        norm(s) != root_path(),
        ws_clean(norm(s)),
    ensures
        spec_mkdirs(empty_store(), s, false) is Ok,
        path_exists(spec_mkdirs(empty_store(), s, false).unwrap(), norm(s)),
        spec_mkdirs(spec_mkdirs(empty_store(), s, false).unwrap(), s, false) matches Err(k) && k
            == FsErrorKind::AlreadyExists,
{
    let q = norm(s);
    let m0 = empty_store();
    lemma_norm_idempotent(s);
    assert(!exists_under(m0, q)) by {
        assert(forall|k: Seq<char>| !(#[trigger] m0.dom().contains(k)));
    }
    assert(spec_mkdir(m0, q, true) is Ok);
    let m1 = m0.insert(q, Seq::<u8>::empty());
    assert(spec_mkdirs(m0, s, false) == Ok::<Store, FsErrorKind>(m1));
    assert(m1.dom().contains(q));
    assert(scan_hit(q, q)) by {
        assert(q.take(q.len() as int) =~= q);
    }
    assert(exists_under(m1, q));
    assert(path_exists(m1, q));
}

/// A non-recursive `rmdir` of a directory that holds a child fails with
/// DirectoryNotEmpty; a recursive one removes the whole subtree, after
/// which the directory no longer exists.
pub proof fn lemma_rmdir_occupied(m: Store, s: Seq<char>, c: Seq<char>)
    requires
        ends_slash(norm(s)),
        norm(s) != root_path(),
        ws_clean(norm(s)),
        m.dom().contains(c),
        scan_hit(c, norm(s)),
        c != norm(s),
    ensures
        spec_rmdir(m, s, false) matches Err(k) && k == FsErrorKind::DirectoryNotEmpty,
        spec_rmdir(m, s, true) is Ok,
        !path_exists(spec_rmdir(m, s, true).unwrap(), norm(s)),
{
    let q = norm(s);
    assert(exists_under(m, q));
    assert(path_exists(m, q));
    lemma_child_entry_strict(q, c);
    assert(has_strict_child(m, q));
    let hits = Set::new(|k: Seq<char>| scan_hit(k, q));
    let m2 = m.remove_keys(hits);
    assert(!exists_under(m2, q)) by {
        assert forall|k: Seq<char>| #[trigger] m2.dom().contains(k) implies !scan_hit(k, q) by {
            assert(!hits.contains(k));
        }
    }
}

/// `rm_file` on a path that resolves to a directory fails with
/// InvalidPath, not NotFound.
pub proof fn lemma_rm_file_on_directory(m: Store, s: Seq<char>, k: Seq<char>)
    requires
        norm(s) != root_path(),
        ws_clean(file_form(norm(s))),
        !m.dom().contains(file_form(norm(s))),
        m.dom().contains(k),
        scan_hit(k, file_form(norm(s)).push('/')),
    ensures
        spec_rm_file(m, s) matches Err(k) && k == FsErrorKind::InvalidPath,
{
    let f = file_form(norm(s));
    assert(exists_under(m, f.push('/')));
}

/// Round trip: writing bytes at a file path and reading the same path
/// back returns exactly those bytes.
pub proof fn lemma_write_read_round_trip(m: Store, s: Seq<char>, data: Seq<u8>)
    requires
        !ends_slash(norm(s)),
        ws_clean(norm(s)),
    ensures
        spec_write(m, s, data) is Ok,
        spec_read(spec_write(m, s, data).unwrap(), s) matches Ok(d) && d == data,
{
    let q = norm(s);
    let m1 = m.insert(q, data);
    assert(m1.dom().contains(q));
    assert(m1[q] == data);
}

/// `info` on a missing path fails with NotFound; after a write, `info`
/// on the written path reports the written length as the size.
pub proof fn lemma_info_reports_write(m: Store, root: Seq<char>, s: Seq<char>, data: Seq<u8>)
    requires
        !ends_slash(norm(s)),
        ws_clean(norm(s)),
    ensures
        stat_of(m, norm(s)) is None ==> (spec_info(m, root, s) matches Err(k) && k
            == FsErrorKind::NotFound),
        spec_write(m, s, data) is Ok,
        spec_info(spec_write(m, s, data).unwrap(), root, s) matches Ok(st) && st == (
            rooted_abs(root, norm(s)),
            data.len() as nat,
            false,
        ),
{
    let q = norm(s);
    assert(q != root_path()) by {
        if q == root_path() {
            assert(ends_slash(root_path()));
        }
    }
    let m1 = m.insert(q, data);
    assert(m1.dom().contains(q));
    assert(m1[q] == data);
}

} // verus!
