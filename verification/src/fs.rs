//! The virtual filesystem facade.
//!
//! `OpendalFileSystem` composes the backend's primitives into directory
//! semantics: paths are canonicalized, a trailing slash marks directory
//! intent, and every operation's outcome is specified against the
//! functional model in [`crate::model`].  On a memory-backed operator
//! the contracts pin each outcome exactly; on any other backend they
//! state the locally decided errors and what must hold of any outcome.

use vstd::prelude::*;

use crate::backend::backed_by_memory;
use crate::backend::be_build;
use crate::backend::be_create_dir;
use crate::backend::be_delete;
use crate::backend::be_exists;
use crate::backend::be_info_root;
use crate::backend::be_list;
use crate::backend::be_read;
use crate::backend::be_remove_all;
use crate::backend::be_stat;
use crate::backend::be_write;
use crate::backend::root_of;
use crate::backend::store;
use crate::error::FsError;
use crate::error::FsErrorKind;
use crate::model::child_entry;
use crate::model::empty_store;
use crate::model::has_strict_child;
use crate::model::ls_entries;
use crate::model::scan_hit;
use crate::model::spec_exists;
use crate::model::spec_info;
use crate::model::spec_mkdir;
use crate::model::spec_mkdirs;
use crate::model::spec_modified;
use crate::model::spec_read;
use crate::model::spec_rm_file;
use crate::model::spec_rmdir;
use crate::model::spec_write;
use crate::path::ends_slash;
use crate::path::build_rooted;
use crate::path::first_slash;
use crate::path::first_slash_index;
use crate::path::lemma_canon_add_slash;
use crate::path::lemma_canon_strip;
use crate::path::lemma_first_slash;
use crate::path::lemma_norm_idempotent;
use crate::path::lemma_norm_nonempty;
use crate::path::norm;
use crate::path::normalize;
use crate::path::root_path;
use crate::path::white;
use crate::path::ws_clean;

verus! {

/// The type of an entry: a file, a directory, or unresolved.
#[derive(Clone, Copy, Debug, PartialEq, Eq, Structural)]
pub enum EntryKind {
    File,
    Dir,
    Unknown,
}

/// The storage scheme a facade is configured for.
#[derive(Clone, Copy, Debug, PartialEq, Eq, Structural)]
pub enum Scheme {
    Memory,
    S3,
}

/// What `info` reports of a path: its root-qualified absolute path, its
/// size in bytes, and its type.
#[derive(Debug)]
pub struct FileStat {
    pub path: String,
    pub size: u64,
    pub kind: EntryKind,
}

/// A virtual filesystem over one backend operator, which it owns
/// exclusively for its lifetime.
pub struct OpendalFileSystem {
    op: opendal::Operator,
}

impl View for OpendalFileSystem {
    type V = Map<Seq<char>, Seq<u8>>;

    /// The abstract contents of the backend: canonical paths to bytes.
    closed spec fn view(&self) -> Map<Seq<char>, Seq<u8>> {
        store(self.op)
    }
}

impl OpendalFileSystem {
    /// Whether this facade drives the process-local memory service, for
    /// which the contracts pin every outcome exactly.
    pub closed spec fn is_memory_backed(&self) -> bool {
        backed_by_memory(self.op)
    }

    /// The configured root of the backend, in canonical `/a/b/` form.
    pub closed spec fn root_view(&self) -> Seq<char> {
        root_of(self.op)
    }

    /// Wrap an operator, taking exclusive ownership of it.
    pub(crate) fn wrap(op: opendal::Operator) -> (r: Self)
        ensures
            r@ == store(op),
            r.is_memory_backed() == backed_by_memory(op),
            r.root_view() == root_of(op),
    {
        OpendalFileSystem { op }
    }

    /// Build a facade over a backend of the given scheme, configured by
    /// key-value options.  Building a memory backend is in-process and
    /// cannot fail; it starts over a fresh, empty store, rooted at `/`
    /// when no options are given.
    pub fn new(scheme: Scheme, options: Vec<(String, String)>) -> (r: Result<Self, FsError>)
        ensures
            scheme is Memory ==> r is Ok,
            r matches Ok(fs) ==> (fs.is_memory_backed() <==> scheme is Memory),
            scheme is Memory ==> (r matches Ok(fs) ==> fs@ == empty_store()),
            scheme is Memory && options@.len() == 0 ==> (r matches Ok(fs) ==> fs.root_view()
                == root_path()),
    {
        match be_build(scheme, options) {
            Ok(op) => Ok(OpendalFileSystem::wrap(op)),
            Err(e) => Err(e),
        }
    }

    /// Create a directory.  The canonical path must carry the directory
    /// marker and not be the root; unless `create_parents` is set, only
    /// a top-level directory may be created.
    pub fn mkdir(&mut self, path: &str, create_parents: bool) -> (r: Result<(), FsError>)
        ensures
            final(self).is_memory_backed() == old(self).is_memory_backed(),
            final(self).root_view() == old(self).root_view(),
            old(self).is_memory_backed() ==> match spec_mkdir(old(self)@, path@, create_parents) {
                Ok(m2) => r is Ok && final(self)@ == m2,
                Err(k) => r matches Err(e) && e.kind() == k && final(self)@ == old(self)@,
            },
            (spec_mkdir(old(self)@, path@, create_parents) matches Err(k) && k
                == FsErrorKind::InvalidPath) ==> (r matches Err(e) && e is InvalidPath
                && *final(self) == *old(self)),
            r is Ok ==> spec_mkdir(old(self)@, path@, create_parents) is Ok,
            (r matches Err(e) && e is InvalidPath) ==> (spec_mkdir(
                old(self)@,
                path@,
                create_parents,
            ) matches Err(k) && k == FsErrorKind::InvalidPath),
    {
        let q = normalize(path);
        proof {
            lemma_norm_idempotent(path@);
            lemma_norm_nonempty(path@);
        }
        let n: usize = q.unicode_len();
        if q.get_char(n - 1) != '/' {
            return Err(FsError::InvalidPath);
        }
        if n == 1 {
            proof {
                assert(q@ =~= root_path());
            }
            return Err(FsError::InvalidPath);
        }
        proof {
            if q@ == root_path() {
                assert(q@.len() == 1);
                assert(false);
            }
        }
        let fs_idx = first_slash_index(q.as_str());
        proof {
            lemma_first_slash(q@);
            if first_slash(q@) == q@.len() {
                assert(q@[n - 1] != '/');
                assert(false);
            }
        }
        if fs_idx + 1 < n && !create_parents {
            return Err(FsError::InvalidPath);
        }
        if white(q.get_char(0)) || white(q.get_char(n - 1)) {
            return Err(FsError::InvalidPath);
        }
        be_create_dir(&mut self.op, q.as_str())
    }

    /// Create a directory and, always, its whole chain of parents; fail
    /// with AlreadyExists when the path exists and `exist_ok` is false.
    pub fn mkdirs(&mut self, path: &str, exist_ok: bool) -> (r: Result<(), FsError>)
        ensures
            final(self).is_memory_backed() == old(self).is_memory_backed(),
            final(self).root_view() == old(self).root_view(),
            old(self).is_memory_backed() ==> match spec_mkdirs(old(self)@, path@, exist_ok) {
                Ok(m2) => r is Ok && final(self)@ == m2,
                Err(k) => r matches Err(e) && e.kind() == k && final(self)@ == old(self)@,
            },
            !ws_clean(norm(path@)) ==> (r matches Err(e) && e is InvalidPath && *final(self) == *old(
                self,
            )),
    {
        let q = normalize(path);
        proof {
            lemma_norm_idempotent(path@);
            lemma_norm_nonempty(path@);
        }
        let n: usize = q.unicode_len();
        if white(q.get_char(0)) || white(q.get_char(n - 1)) {
            return Err(FsError::InvalidPath);
        }
        let ex = match be_exists(&self.op, q.as_str()) {
            Ok(b) => b,
            Err(e) => return Err(e),
        };
        if ex && !exist_ok {
            return Err(FsError::AlreadyExists);
        }
        self.mkdir(q.as_str(), true)
    }

    /// Remove a directory.  A path without the directory marker cannot
    /// name an existing directory; with `recursive` the whole subtree is
    /// removed, otherwise the directory must list nothing but itself and
    /// the error names the children that are in the way.
    pub fn rmdir(&mut self, path: &str, recursive: bool) -> (r: Result<(), FsError>)
        ensures
            final(self).is_memory_backed() == old(self).is_memory_backed(),
            final(self).root_view() == old(self).root_view(),
            old(self).is_memory_backed() ==> match spec_rmdir(old(self)@, path@, recursive) {
                Ok(m2) => r is Ok && final(self)@ == m2,
                Err(k) => r matches Err(e) && e.kind() == k && final(self)@ == old(self)@,
            },
            old(self).is_memory_backed() ==> match r {
                Err(FsError::DirectoryNotEmpty(cs)) => {
                    &&& cs@.len() > 0
                    &&& forall|t: int|
                        0 <= t < cs@.len() ==> ls_entries(old(self)@, norm(path@)).contains(
                            (#[trigger] cs@[t])@,
                        ) && cs@[t]@ != norm(path@)
                    &&& forall|e: Seq<char>|
                        #[trigger] ls_entries(old(self)@, norm(path@)).contains(e) && e != norm(
                            path@,
                        ) ==> exists|t: int|
                            #![trigger cs@[t]]
                            0 <= t < cs@.len() && cs@[t]@ == e
                },
                _ => true,
            },
            !ends_slash(norm(path@)) ==> (r matches Err(e) && e is NotFound && *final(self) == *old(
                self,
            )),
    {
        let q = normalize(path);
        proof {
            lemma_norm_idempotent(path@);
            lemma_norm_nonempty(path@);
        }
        let n: usize = q.unicode_len();
        if q.get_char(n - 1) != '/' {
            return Err(FsError::NotFound);
        }
        if white(q.get_char(0)) || white(q.get_char(n - 1)) {
            return Err(FsError::InvalidPath);
        }
        match be_exists(&self.op, q.as_str()) {
            Ok(true) => (),
            Ok(false) => return Err(FsError::NotFound),
            Err(e) => return Err(e),
        }
        let st = match be_stat(&self.op, q.as_str()) {
            Ok(mm) => mm,
            Err(e) => return Err(e),
        };
        if !(st.kind == EntryKind::Dir) {
            return Err(FsError::InvalidPath);
        }
        if recursive {
            return be_remove_all(&mut self.op, q.as_str());
        }
        let entries = match be_list(&self.op, q.as_str()) {
            Ok(v) => v,
            Err(e) => return Err(e),
        };
        let mut children: Vec<String> = Vec::new();
        let mut i: usize = 0;
        while i < entries.len()
            invariant
                i <= entries@.len(),
                (children@.len() > 0) == (exists|t: int|
                    0 <= t < i && (#[trigger] entries@[t])@ != q@),
                forall|t: int| 0 <= t < children@.len() ==> (#[trigger] children@[t])@ != q@,
                forall|t: int|
                    0 <= t < children@.len() ==> exists|u: int|
                        #![trigger entries@[u]]
                        0 <= u < entries@.len() && entries@[u]@ == (#[trigger] children@[t])@,
                forall|u: int|
                    0 <= u < i && (#[trigger] entries@[u])@ != q@ ==> exists|t: int|
                        #![trigger children@[t]]
                        0 <= t < children@.len() && children@[t]@ == entries@[u]@,
            decreases entries@.len() - i,
        {
            let ghost pre = children@;
            let ei = &entries[i];
            if !ei.eq(&q) {
                children.push(ei.clone());
            }
            proof {
                assert forall|u: int|
                    0 <= u < i + 1 && (#[trigger] entries@[u])@ != q@ implies exists|t: int|
                        #![trigger children@[t]]
                        0 <= t < children@.len() && children@[t]@ == entries@[u]@ by {
                    if u == i as int {
                        assert(children@[children@.len() - 1]@ == entries@[u]@);
                    } else {
                        let t0 = choose|t0: int|
                            #![trigger pre[t0]]
                            0 <= t0 < pre.len() && pre[t0]@ == entries@[u]@;
                        assert(children@[t0]@ == entries@[u]@);
                    }
                }
            }
            i += 1;
        }
        proof {
            if old(self).is_memory_backed() {
                let gq = q@;
                let gm = old(self)@;
                if children@.len() > 0 {
                    let t = choose|t: int|
                        0 <= t < entries@.len() && (#[trigger] entries@[t])@ != gq;
                    assert(ls_entries(gm, gq).contains(entries@[t]@));
                    let k = choose|k: Seq<char>|
                        #[trigger] gm.dom().contains(k) && scan_hit(k, gq) && entries@[t]@
                            == child_entry(gq, k);
                    assert(has_strict_child(gm, gq));
                    assert forall|c: int|
                        0 <= c < children@.len() implies ls_entries(gm, gq).contains(
                        (children@[c])@,
                    ) by {
                        let u = choose|u: int|
                            0 <= u < entries@.len() && (#[trigger] entries@[u])@ == children@[c]@;
                        assert(ls_entries(gm, gq).contains(entries@[u]@));
                    }
                    assert forall|e: Seq<char>|
                        ls_entries(gm, gq).contains(e) && e != gq implies exists|c: int|
                            #![trigger children@[c]]
                            0 <= c < children@.len() && children@[c]@ == e by {
                        let u = choose|u: int|
                            0 <= u < entries@.len() && (#[trigger] entries@[u])@ == e;
                        assert(entries@[u]@ != gq);
                        let c = choose|c: int|
                            0 <= c < children@.len() && (#[trigger] children@[c])@ == entries@[u]@;
                        assert(children@[c]@ == e);
                    }
                } else {
                    if has_strict_child(gm, gq) {
                        let k = choose|k: Seq<char>|
                            #[trigger] gm.dom().contains(k) && scan_hit(k, gq) && child_entry(
                                gq,
                                k,
                            ) != gq;
                        assert(ls_entries(gm, gq).contains(child_entry(gq, k)));
                        let u = choose|u: int|
                            0 <= u < entries@.len() && (#[trigger] entries@[u])@ == child_entry(
                                gq,
                                k,
                            );
                        assert(false);
                    }
                }
            }
        }
        if children.len() == 0 {
            if n == 1 {
                proof {
                    assert(q@ =~= root_path());
                }
                return Ok(());
            }
            proof {
                if q@ == root_path() {
                    assert(q@.len() == 1);
                    assert(false);
                }
            }
            return be_delete(&mut self.op, q.as_str());
        }
        Err(FsError::DirectoryNotEmpty(children))
    }

    /// Whether the path exists, by the backend's direct check alone.
    pub fn check_path_exists(&self, path: &str) -> (r: Result<bool, FsError>)
        ensures
            self.is_memory_backed() ==> match spec_exists(self@, path@) {
                Ok(b) => r matches Ok(rb) && rb == b,
                Err(k) => r matches Err(e) && e.kind() == k,
            },
            !ws_clean(norm(path@)) ==> (r matches Err(e) && e is InvalidPath),
            (r matches Err(e) && e is InvalidPath) ==> !ws_clean(norm(path@)),
            r matches Err(e) ==> (e is InvalidPath || e is Backend),
    {
        let q = normalize(path);
        proof {
            lemma_norm_idempotent(path@);
            lemma_norm_nonempty(path@);
        }
        let n: usize = q.unicode_len();
        if white(q.get_char(0)) || white(q.get_char(n - 1)) {
            return Err(FsError::InvalidPath);
        }
        be_exists(&self.op, q.as_str())
    }

    /// Whether the path exists.  The direct check is tried first; if the
    /// backend fails it outright, a stat decides, treating NotFound as
    /// absence and any other failure as a hard error.
    pub fn path_exists(&self, path: &str) -> (r: Result<bool, FsError>)
        ensures
            self.is_memory_backed() ==> match spec_exists(self@, path@) {
                Ok(b) => r matches Ok(rb) && rb == b,
                Err(k) => r matches Err(e) && e.kind() == k,
            },
            !ws_clean(norm(path@)) ==> (r matches Err(e) && e is InvalidPath),
            (r matches Err(e) && e is InvalidPath) ==> !ws_clean(norm(path@)),
            r matches Err(e) ==> (e is InvalidPath || e is Backend),
    {
        let q = normalize(path);
        proof {
            lemma_norm_idempotent(path@);
            lemma_norm_nonempty(path@);
        }
        let n: usize = q.unicode_len();
        if white(q.get_char(0)) || white(q.get_char(n - 1)) {
            return Err(FsError::InvalidPath);
        }
        match be_exists(&self.op, q.as_str()) {
            Ok(b) => Ok(b),
            Err(_) => match be_stat(&self.op, q.as_str()) {
                Ok(_) => Ok(true),
                Err(FsError::NotFound) => Ok(false),
                Err(e) => Err(e),
            },
        }
    }

    /// List the entries at the path: the stored names one level below
    /// it, with the directory's own marker included when stored.
    pub fn ls(&self, path: &str) -> (r: Result<Vec<String>, FsError>)
        ensures
            self.is_memory_backed() && ws_clean(norm(path@)) ==> r is Ok,
            self.is_memory_backed() ==> (r matches Ok(v) ==> (forall|i: int|
                0 <= i < v@.len() ==> #[trigger] ls_entries(self@, norm(path@)).contains(v@[i]@))
                && (forall|e: Seq<char>|
                #[trigger] ls_entries(self@, norm(path@)).contains(e) ==> exists|i: int|
                    #![trigger v@[i]]
                    0 <= i < v@.len() && v@[i]@ == e)),
            !ws_clean(norm(path@)) ==> (r matches Err(e) && e is InvalidPath),
            (r matches Err(e) && e is InvalidPath) ==> !ws_clean(norm(path@)),
            r matches Err(e) ==> (e is InvalidPath || e is Backend),
    {
        let q = normalize(path);
        proof {
            lemma_norm_idempotent(path@);
            lemma_norm_nonempty(path@);
        }
        let n: usize = q.unicode_len();
        if white(q.get_char(0)) || white(q.get_char(n - 1)) {
            return Err(FsError::InvalidPath);
        }
        be_list(&self.op, q.as_str())
    }

    /// Metadata of the path: its root-qualified absolute path, its size,
    /// and whether it is a file or a directory.
    pub fn info(&self, path: &str) -> (r: Result<FileStat, FsError>)
        ensures
            self.is_memory_backed() ==> match spec_info(self@, self.root_view(), path@) {
                Ok((p, size, is_dir)) => r matches Ok(st) && st.path@ == p && st.size as nat
                    == size && (st.kind is Dir <==> is_dir) && (st.kind is File <==> !is_dir),
                Err(k) => r matches Err(e) && e.kind() == k,
            },
            !ws_clean(norm(path@)) ==> (r matches Err(e) && e is InvalidPath),
            (r matches Err(e) && e is InvalidPath) ==> !ws_clean(norm(path@)),
            r matches Err(e) ==> (e is InvalidPath || e is NotFound || e is Backend),
    {
        let q = normalize(path);
        proof {
            lemma_norm_idempotent(path@);
            lemma_norm_nonempty(path@);
        }
        let n: usize = q.unicode_len();
        if white(q.get_char(0)) || white(q.get_char(n - 1)) {
            return Err(FsError::InvalidPath);
        }
        let root = be_info_root(&self.op);
        let abs = build_rooted(root.as_str(), q.as_str());
        match be_stat(&self.op, q.as_str()) {
            Ok(mm) => Ok(FileStat { path: abs, size: mm.size, kind: mm.kind }),
            Err(e) => Err(e),
        }
    }

    /// The last modification time of the path, in whole seconds.  A
    /// backend that records none yields Unavailable rather than a
    /// made-up default; the memory service records none.
    pub fn modified(&self, path: &str) -> (r: Result<i64, FsError>)
        ensures
            self.is_memory_backed() ==> (r matches Err(e) && e.kind() == spec_modified(
                self@,
                path@,
            )),
            !ws_clean(norm(path@)) ==> (r matches Err(e) && e is InvalidPath),
            (r matches Err(e) && e is InvalidPath) ==> !ws_clean(norm(path@)),
            r matches Err(e) ==> (e is InvalidPath || e is NotFound || e is Unavailable
                || e is Backend),
    {
        let q = normalize(path);
        proof {
            lemma_norm_idempotent(path@);
            lemma_norm_nonempty(path@);
        }
        let n: usize = q.unicode_len();
        if white(q.get_char(0)) || white(q.get_char(n - 1)) {
            return Err(FsError::InvalidPath);
        }
        match be_stat(&self.op, q.as_str()) {
            Ok(mm) => match mm.modified_secs {
                Some(t) => Ok(t),
                None => Err(FsError::Unavailable),
            },
            Err(e) => Err(e),
        }
    }

    /// Remove a file.  The target is looked up both with and without the
    /// directory marker; one that resolves to a directory is refused as
    /// InvalidPath, and only a stored file entry is deleted.
    pub fn rm_file(&mut self, path: &str) -> (r: Result<(), FsError>)
        ensures
            final(self).is_memory_backed() == old(self).is_memory_backed(),
            final(self).root_view() == old(self).root_view(),
            old(self).is_memory_backed() ==> match spec_rm_file(old(self)@, path@) {
                Ok(m2) => r is Ok && final(self)@ == m2,
                Err(k) => r matches Err(e) && e.kind() == k && final(self)@ == old(self)@,
            },
            norm(path@) == root_path() ==> (r matches Err(e) && e is InvalidPath && *final(self)
                == *old(self)),
    {
        let q = normalize(path);
        proof {
            lemma_norm_idempotent(path@);
            lemma_norm_nonempty(path@);
        }
        let n: usize = q.unicode_len();
        if n == 1 && q.get_char(0) == '/' {
            proof {
                assert(q@ =~= root_path());
            }
            return Err(FsError::InvalidPath);
        }
        proof {
            if q@ == root_path() {
                assert(q@.len() == 1 && q@[0] == '/');
                assert(false);
            }
        }
        let ends = q.get_char(n - 1) == '/';
        let f: &str = if ends {
            q.substring_char(0, n - 1)
        } else {
            q.as_str()
        };
        proof {
            if ends {
                lemma_canon_strip(q@);
                assert(f@ =~= q@.drop_last());
            }
        }
        let fl: usize = f.unicode_len();
        if white(f.get_char(0)) || white(f.get_char(fl - 1)) {
            return Err(FsError::InvalidPath);
        }
        proof {
            assert(f@ != root_path()) by {
                if f@ == root_path() {
                    assert(ends_slash(f@));
                }
            }
        }
        let exf = match be_exists(&self.op, f) {
            Ok(b) => b,
            Err(e) => return Err(e),
        };
        if exf {
            let st = match be_stat(&self.op, f) {
                Ok(mm) => mm,
                Err(e) => return Err(e),
            };
            if !(st.kind == EntryKind::File) {
                return Err(FsError::InvalidPath);
            }
            return be_delete(&mut self.op, f);
        }
        let mut d = f.to_owned();
        d.append("/");
        proof {
            reveal_strlit("/");
            assert(d@ =~= f@.push('/'));
            lemma_canon_add_slash(f@);
            assert(d@.len() >= 2);
            if d@ == root_path() {
                assert(d@.len() == 1);
                assert(false);
            }
        }
        let exd = match be_exists(&self.op, d.as_str()) {
            Ok(b) => b,
            Err(e) => return Err(e),
        };
        if exd {
            return Err(FsError::InvalidPath);
        }
        Err(FsError::NotFound)
    }

    /// Read the whole object stored at the file path.
    pub fn read(&self, path: &str) -> (r: Result<Vec<u8>, FsError>)
        ensures
            self.is_memory_backed() ==> match spec_read(self@, path@) {
                Ok(d) => r matches Ok(v) && v@ == d,
                Err(k) => r matches Err(e) && e.kind() == k,
            },
            ends_slash(norm(path@)) || !ws_clean(norm(path@)) ==> (r matches Err(e) && e
                is InvalidPath),
            (r matches Err(e) && e is InvalidPath) ==> (ends_slash(norm(path@)) || !ws_clean(
                norm(path@),
            )),
            r matches Err(e) ==> (e is InvalidPath || e is NotFound || e is Backend),
    {
        let q = normalize(path);
        proof {
            lemma_norm_idempotent(path@);
            lemma_norm_nonempty(path@);
        }
        let n: usize = q.unicode_len();
        if q.get_char(n - 1) == '/' {
            return Err(FsError::InvalidPath);
        }
        if white(q.get_char(0)) || white(q.get_char(n - 1)) {
            return Err(FsError::InvalidPath);
        }
        be_read(&self.op, q.as_str())
    }

    /// Overwrite the whole object at the file path with the given bytes.
    pub fn write(&mut self, path: &str, data: Vec<u8>) -> (r: Result<(), FsError>)
        ensures
            final(self).is_memory_backed() == old(self).is_memory_backed(),
            final(self).root_view() == old(self).root_view(),
            old(self).is_memory_backed() ==> match spec_write(old(self)@, path@, data@) {
                Ok(m2) => r is Ok && final(self)@ == m2,
                Err(k) => r matches Err(e) && e.kind() == k && final(self)@ == old(self)@,
            },
            ends_slash(norm(path@)) || !ws_clean(norm(path@)) ==> (r matches Err(e) && e
                is InvalidPath && *final(self) == *old(self)),
            (r matches Err(e) && e is InvalidPath) ==> (ends_slash(norm(path@)) || !ws_clean(
                norm(path@),
            )),
            r is Ok ==> spec_write(old(self)@, path@, data@) is Ok,
    {
        let q = normalize(path);
        proof {
            lemma_norm_idempotent(path@);
            lemma_norm_nonempty(path@);
        }
        let n: usize = q.unicode_len();
        if q.get_char(n - 1) == '/' {
            return Err(FsError::InvalidPath);
        }
        if white(q.get_char(0)) || white(q.get_char(n - 1)) {
            return Err(FsError::InvalidPath);
        }
        be_write(&mut self.op, q.as_str(), data)
    }
}

impl From<opendal::Operator> for OpendalFileSystem {
    /// Take exclusive ownership of an already-built operator: the
    /// facade's whole state is that operator, and no backend primitive
    /// is invoked.
    fn from(op: opendal::Operator) -> (r: Self)
        ensures
            r@ == store(op),
            r.is_memory_backed() == backed_by_memory(op),
            r.root_view() == root_of(op),
    {
        OpendalFileSystem { op }
    }
}

impl vstd::std_specs::convert::FromSpecImpl<opendal::Operator> for OpendalFileSystem {
    open spec fn obeys_from_spec() -> bool {
        true
    }

    closed spec fn from_spec(op: opendal::Operator) -> OpendalFileSystem {
        OpendalFileSystem { op }
    }
}

} // verus!
