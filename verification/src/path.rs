//! Canonical path handling.
//!
//! A path is a slash-delimited sequence of segments.  Its canonical form
//! collapses repeated slashes, drops `.` segments, resolves `..` segments
//! against their parent (clamping at the root), and preserves a trailing
//! slash, which is the sole marker that the path denotes a directory.
//! The empty path canonicalizes to the root sentinel `/`.

use vstd::prelude::*;

verus! {

/// The root sentinel: the canonical form of the empty path.
pub open spec fn root_path() -> Seq<char> {
    seq!['/']
}

/// Index of the first `/` in `s`, or `s.len()` if there is none.
pub open spec fn first_slash(s: Seq<char>) -> int
    decreases s.len(),
{
    if s.len() == 0 {
        0
    } else if s[0] == '/' {
        0
    } else {
        1 + first_slash(s.drop_first())
    }
}

pub proof fn lemma_first_slash(s: Seq<char>)
    ensures
        0 <= first_slash(s) <= s.len(),
        forall|k: int| 0 <= k < first_slash(s) ==> s[k] != '/',
        first_slash(s) < s.len() ==> s[first_slash(s)] == '/',
    decreases s.len(),
{
    if s.len() == 0 {
    } else if s[0] == '/' {
    } else {
        let d = s.drop_first();
        lemma_first_slash(d);
        assert forall|k: int| 0 <= k < first_slash(s) implies s[k] != '/' by {
            if k >= 1 {
                assert(s[k] == d[k - 1]);
            }
        }
        if first_slash(s) < s.len() {
            assert(s[first_slash(s)] == d[first_slash(s) - 1]);
        }
    }
}

pub proof fn lemma_first_slash_at(s: Seq<char>, j: int)
    requires
        0 <= j <= s.len(),
        forall|k: int| 0 <= k < j ==> s[k] != '/',
        j < s.len() ==> s[j] == '/',
    ensures
        first_slash(s) == j,
    decreases s.len(),
{
    if s.len() == 0 {
    } else if s[0] == '/' {
        assert(j == 0);
    } else {
        let d = s.drop_first();
        assert(j >= 1);
        assert forall|k: int| 0 <= k < j - 1 implies d[k] != '/' by {
            assert(d[k] == s[k + 1]);
        }
        if j - 1 < d.len() {
            assert(d[j - 1] == s[j]);
        }
        lemma_first_slash_at(d, j - 1);
    }
}

/// The segments of `s`, split on `/`; empty segments are kept, so that
/// `a//b` splits into `a`, the empty segment, and `b`.
pub open spec fn split_segs(s: Seq<char>) -> Seq<Seq<char>>
    decreases s.len(),
    via split_segs_decreases
{
    let j = first_slash(s);
    if j == s.len() {
        seq![s]
    } else {
        seq![s.take(j)] + split_segs(s.skip(j + 1))
    }
}

#[via_fn]
proof fn split_segs_decreases(s: Seq<char>) {
    lemma_first_slash(s);
}

/// The segment `.`, which refers to the directory itself.
pub open spec fn seg_dot() -> Seq<char> {
    seq!['.']
}

/// The segment `..`, which refers to the parent directory.
pub open spec fn seg_dotdot() -> Seq<char> {
    seq!['.', '.']
}

/// Resolution of one further segment against the segments kept so far:
/// empty and `.` segments disappear, `..` removes the previous segment
/// (or nothing, at the root), anything else is kept.
pub open spec fn step_seg(acc: Seq<Seq<char>>, seg: Seq<char>) -> Seq<Seq<char>> {
    if seg.len() == 0 || seg == seg_dot() {
        acc
    } else if seg == seg_dotdot() {
        if acc.len() > 0 {
            acc.drop_last()
        } else {
            acc
        }
    } else {
        acc.push(seg)
    }
}

/// The segments that remain after resolving `.` and `..` and dropping
/// empty segments, processed left to right.
pub open spec fn resolve_segs(segs: Seq<Seq<char>>) -> Seq<Seq<char>>
    decreases segs.len(),
{
    if segs.len() == 0 {
        Seq::empty()
    } else {
        step_seg(resolve_segs(segs.drop_last()), segs.last())
    }
}

/// The segments joined with single slashes, without a leading or a
/// trailing slash.
pub open spec fn join_segs(segs: Seq<Seq<char>>) -> Seq<char>
    decreases segs.len(),
{
    if segs.len() == 0 {
        Seq::empty()
    } else if segs.len() == 1 {
        segs[0]
    } else {
        segs[0] + seq!['/'] + join_segs(segs.drop_first())
    }
}

/// The nonempty segments, in order.
pub open spec fn drop_empty(segs: Seq<Seq<char>>) -> Seq<Seq<char>>
    decreases segs.len(),
{
    if segs.len() == 0 {
        Seq::empty()
    } else if segs.last().len() == 0 {
        drop_empty(segs.drop_last())
    } else {
        drop_empty(segs.drop_last()).push(segs.last())
    }
}

/// Whether `s` carries the directory marker: a final `/`.
pub open spec fn ends_slash(s: Seq<char>) -> bool {
    s.len() > 0 && s[s.len() - 1] == '/'
}

/// The canonical form of a path: repeated slashes collapsed, `.` and
/// `..` segments resolved, a trailing slash preserved, the empty result
/// replaced by the root sentinel.
pub open spec fn norm(s: Seq<char>) -> Seq<char> {
    let segs = resolve_segs(split_segs(s));
    if segs.len() == 0 {
        root_path()
    } else if ends_slash(s) {
        join_segs(segs) + seq!['/']
    } else {
        join_segs(segs)
    }
}

/// The canonical form of a backend root: nonempty segments joined and
/// wrapped in a leading and a trailing slash, `/` when no segment is left.
pub open spec fn nroot(s: Seq<char>) -> Seq<char> {
    let segs = drop_empty(split_segs(s));
    if segs.len() == 0 {
        root_path()
    } else {
        seq!['/'] + join_segs(segs) + seq!['/']
    }
}

/// The root-qualified absolute form of the canonical path `q` under the
/// backend root `root`.
pub open spec fn rooted_abs(root: Seq<char>, q: Seq<char>) -> Seq<char> {
    if q == root_path() {
        nroot(root)
    } else {
        nroot(root) + q
    }
}

/// A segment without slashes.
pub open spec fn no_slash_seg(t: Seq<char>) -> bool {
    forall|k: int| 0 <= k < t.len() ==> t[k] != '/'
}

/// A segment as it appears in a canonical path: nonempty, free of
/// slashes, and not one of the two relative segments.
pub open spec fn plain_seg(t: Seq<char>) -> bool {
    t.len() > 0 && no_slash_seg(t) && t != seg_dot() && t != seg_dotdot()
}

pub open spec fn all_plain(segs: Seq<Seq<char>>) -> bool {
    forall|i: int| 0 <= i < segs.len() ==> plain_seg(#[trigger] segs[i])
}

proof fn lemma_split_no_slash(s: Seq<char>)
    ensures
        forall|i: int|
            0 <= i < split_segs(s).len() ==> no_slash_seg(#[trigger] split_segs(s)[i]),
    decreases s.len(),
{
    lemma_first_slash(s);
    let j = first_slash(s);
    if j == s.len() {
        assert(no_slash_seg(s));
    } else {
        lemma_split_no_slash(s.skip(j + 1));
        assert(no_slash_seg(s.take(j)));
        assert forall|i: int|
            0 <= i < split_segs(s).len() implies no_slash_seg(#[trigger] split_segs(s)[i]) by {
            if i >= 1 {
                assert(split_segs(s)[i] == split_segs(s.skip(j + 1))[i - 1]);
            }
        }
    }
}

proof fn lemma_resolve_plain(segs: Seq<Seq<char>>)
    requires
        forall|i: int| 0 <= i < segs.len() ==> no_slash_seg(#[trigger] segs[i]),
    ensures
        all_plain(resolve_segs(segs)),
    decreases segs.len(),
{
    if segs.len() > 0 {
        let front = segs.drop_last();
        assert forall|i: int| 0 <= i < front.len() implies no_slash_seg(#[trigger] front[i]) by {
            assert(front[i] == segs[i]);
        }
        lemma_resolve_plain(front);
        let acc = resolve_segs(front);
        let last = segs.last();
        if last.len() == 0 || last == seg_dot() {
        } else if last == seg_dotdot() {
            if acc.len() > 0 {
                assert forall|i: int|
                    0 <= i < acc.drop_last().len() implies plain_seg(
                    #[trigger] acc.drop_last()[i],
                ) by {
                    assert(acc.drop_last()[i] == acc[i]);
                }
            }
        } else {
            assert(plain_seg(last));
        }
    }
}

proof fn lemma_split_join(segs: Seq<Seq<char>>)
    requires
        segs.len() > 0,
        forall|i: int|
            0 <= i < segs.len() ==> (#[trigger] segs[i]).len() > 0 && no_slash_seg(segs[i]),
    ensures
        split_segs(join_segs(segs)) == segs,
    decreases segs.len(),
{
    let j = join_segs(segs);
    if segs.len() == 1 {
        assert(j == segs[0]);
        lemma_first_slash_at(j, j.len() as int);
        assert(split_segs(j) =~= segs);
    } else {
        let rest = segs.drop_first();
        let head = segs[0];
        let tail = join_segs(rest);
        assert(j == head + seq!['/'] + tail);
        let hl = head.len() as int;
        assert forall|k: int| 0 <= k < hl implies j[k] != '/' by {
            assert(j[k] == head[k]);
        }
        assert(j[hl] == '/');
        lemma_first_slash_at(j, hl);
        assert(j.take(hl) =~= head);
        assert(j.skip(hl + 1) =~= tail);
        assert forall|i: int|
            0 <= i < rest.len() implies (#[trigger] rest[i]).len() > 0 && no_slash_seg(rest[i]) by {
            assert(rest[i] == segs[i + 1]);
        }
        lemma_split_join(rest);
        assert(split_segs(j) =~= seq![head] + split_segs(tail));
        assert(seq![head] + rest =~= segs);
    }
}

proof fn lemma_split_add_slash(t: Seq<char>)
    ensures
        split_segs(t.push('/')) == split_segs(t).push(Seq::<char>::empty()),
    decreases t.len(),
{
    let u = t.push('/');
    lemma_first_slash(t);
    let j = first_slash(t);
    assert forall|k: int| 0 <= k < j implies u[k] != '/' by {
        assert(u[k] == t[k]);
    }
    if j < t.len() {
        assert(u[j] == t[j]);
    }
    lemma_first_slash_at(u, j);
    if j == t.len() {
        assert(u.take(j) =~= t);
        assert(u.skip(j + 1) =~= Seq::<char>::empty());
        assert(first_slash(Seq::<char>::empty()) == 0);
        assert(split_segs(Seq::<char>::empty()) =~= seq![Seq::<char>::empty()]);
        assert(split_segs(u) =~= split_segs(t).push(Seq::<char>::empty()));
    } else {
        assert(u.take(j) =~= t.take(j));
        assert(u.skip(j + 1) =~= t.skip(j + 1).push('/'));
        lemma_split_add_slash(t.skip(j + 1));
        assert(split_segs(u) =~= split_segs(t).push(Seq::<char>::empty()));
    }
}

proof fn lemma_resolve_push_empty(segs: Seq<Seq<char>>)
    ensures
        resolve_segs(segs.push(Seq::<char>::empty())) == resolve_segs(segs),
{
    let p = segs.push(Seq::<char>::empty());
    assert(p.drop_last() =~= segs);
    assert(p.last() =~= Seq::<char>::empty());
}

proof fn lemma_resolve_plain_id(segs: Seq<Seq<char>>)
    requires
        all_plain(segs),
    ensures
        resolve_segs(segs) == segs,
    decreases segs.len(),
{
    if segs.len() > 0 {
        let front = segs.drop_last();
        assert forall|i: int| 0 <= i < front.len() implies plain_seg(#[trigger] front[i]) by {
            assert(front[i] == segs[i]);
        }
        lemma_resolve_plain_id(front);
        assert(plain_seg(segs.last()));
        assert(resolve_segs(segs) =~= front.push(segs.last()));
        assert(front.push(segs.last()) =~= segs);
    }
}

proof fn lemma_join_push(segs: Seq<Seq<char>>, x: Seq<char>)
    ensures
        join_segs(segs.push(x)) == if segs.len() == 0 {
            x
        } else {
            join_segs(segs) + seq!['/'] + x
        },
    decreases segs.len(),
{
    let p = segs.push(x);
    if segs.len() == 0 {
        assert(join_segs(p) == p[0]);
        assert(p[0] == x);
    } else {
        assert(p.len() >= 2);
        assert(p[0] == segs[0]);
        assert(p.drop_first() =~= segs.drop_first().push(x));
        lemma_join_push(segs.drop_first(), x);
        if segs.len() == 1 {
            assert(segs.drop_first().len() == 0);
            assert(join_segs(p) == segs[0] + seq!['/'] + x);
            assert(join_segs(segs) == segs[0]);
        } else {
            assert(join_segs(p) == segs[0] + seq!['/'] + (join_segs(segs.drop_first()) + seq![
                '/',
            ] + x));
            assert(join_segs(segs) == segs[0] + seq!['/'] + join_segs(segs.drop_first()));
            assert(segs[0] + seq!['/'] + (join_segs(segs.drop_first()) + seq!['/'] + x) =~= (segs[0]
                + seq!['/'] + join_segs(segs.drop_first())) + seq!['/'] + x);
        }
    }
}

proof fn lemma_join_bounds(segs: Seq<Seq<char>>)
    requires
        segs.len() > 0,
        forall|i: int|
            0 <= i < segs.len() ==> (#[trigger] segs[i]).len() > 0 && no_slash_seg(segs[i]),
    ensures
        join_segs(segs).len() > 0,
        join_segs(segs).last() == segs.last().last(),
        join_segs(segs).first() == segs.first().first(),
        join_segs(segs).last() != '/',
        join_segs(segs).first() != '/',
    decreases segs.len(),
{
    let j = join_segs(segs);
    if segs.len() == 1 {
        assert(j == segs[0]);
    } else {
        let rest = segs.drop_first();
        assert forall|i: int|
            0 <= i < rest.len() implies (#[trigger] rest[i]).len() > 0 && no_slash_seg(rest[i]) by {
            assert(rest[i] == segs[i + 1]);
        }
        lemma_join_bounds(rest);
        let tail = join_segs(rest);
        assert(j == segs[0] + seq!['/'] + tail);
        assert(j.last() == tail.last());
        assert(rest.last() == segs.last());
        assert(j.first() == segs[0].first());
    }
}

proof fn lemma_norm_of_root()
    ensures
        norm(root_path()) == root_path(),
{
    let r = root_path();
    let e = Seq::<char>::empty();
    assert(r[0] == '/');
    assert(first_slash(r) == 0);
    let rest = r.skip(1);
    assert(rest =~= e);
    assert(first_slash(e) == 0);
    assert(split_segs(e) == seq![e]);
    assert(r.take(0) =~= e);
    assert(split_segs(r) == seq![r.take(0)] + split_segs(rest));
    let two = split_segs(r);
    assert(two =~= seq![e, e]);
    let one = seq![e];
    assert(two.drop_last() =~= one);
    assert(two.last() =~= e);
    assert(one.drop_last() =~= Seq::<Seq<char>>::empty());
    assert(one.last() =~= e);
    assert(resolve_segs(Seq::<Seq<char>>::empty()) == Seq::<Seq<char>>::empty());
    assert(resolve_segs(one) == step_seg(resolve_segs(one.drop_last()), one.last()));
    assert(resolve_segs(one) =~= Seq::<Seq<char>>::empty());
    assert(resolve_segs(two) == step_seg(resolve_segs(two.drop_last()), two.last()));
    assert(resolve_segs(two) =~= Seq::<Seq<char>>::empty());
}

/// Canonicalization is idempotent: the canonical form of a path is its
/// own canonical form.
pub proof fn lemma_norm_idempotent(s: Seq<char>)
    ensures
        norm(norm(s)) == norm(s),
{
    lemma_split_no_slash(s);
    lemma_resolve_plain(split_segs(s));
    let segs = resolve_segs(split_segs(s));
    if segs.len() == 0 {
        lemma_norm_of_root();
    } else {
        assert forall|i: int|
            0 <= i < segs.len() implies (#[trigger] segs[i]).len() > 0 && no_slash_seg(segs[i]) by {
            assert(plain_seg(segs[i]));
        }
        let j = join_segs(segs);
        lemma_split_join(segs);
        lemma_resolve_plain_id(segs);
        lemma_join_bounds(segs);
        if ends_slash(s) {
            let t = j + seq!['/'];
            assert(norm(s) == t);
            assert(t =~= j.push('/'));
            lemma_split_add_slash(j);
            lemma_resolve_push_empty(segs);
            assert(resolve_segs(split_segs(t)) == segs);
            assert(ends_slash(t));
            assert(norm(t) == j + seq!['/']);
        } else {
            assert(norm(s) == j);
            assert(resolve_segs(split_segs(j)) == segs);
            assert(!ends_slash(j));
            assert(norm(j) == j);
        }
    }
}

/// The canonical form of a path is never empty.
pub proof fn lemma_norm_nonempty(s: Seq<char>)
    ensures
        norm(s).len() > 0,
        ends_slash(norm(s)) == (ends_slash(s) || norm(s) == root_path()),
{
    lemma_split_no_slash(s);
    lemma_resolve_plain(split_segs(s));
    let segs = resolve_segs(split_segs(s));
    if segs.len() == 0 {
    } else {
        assert forall|i: int|
            0 <= i < segs.len() implies (#[trigger] segs[i]).len() > 0 && no_slash_seg(segs[i]) by {
            assert(plain_seg(segs[i]));
        }
        lemma_join_bounds(segs);
        let j = join_segs(segs);
        if ends_slash(s) {
            assert((j + seq!['/']).last() == '/');
            assert(norm(s) != root_path() || ends_slash(norm(s)));
        } else {
            assert(norm(s) == j);
            assert(!ends_slash(j));
            assert(j != root_path()) by {
                assert(j.last() != '/');
                assert(root_path().last() == '/');
            }
        }
    }
}

/// The shape of a canonical path: it is the root sentinel, or the plain
/// segments it resolves to, joined, with the trailing slash it ends with.
pub proof fn lemma_canon_shape(s: Seq<char>)
    requires
        norm(s) == s,
    ensures
        s == root_path() || {
            let segs = resolve_segs(split_segs(s));
            &&& all_plain(segs)
            &&& segs.len() > 0
            &&& if ends_slash(s) {
                s == join_segs(segs) + seq!['/']
            } else {
                s == join_segs(segs)
            }
        },
{
    lemma_split_no_slash(s);
    lemma_resolve_plain(split_segs(s));
    let segs = resolve_segs(split_segs(s));
    if segs.len() == 0 {
        assert(s == root_path());
    }
}

/// Dropping the trailing slash of a canonical directory path other than
/// the root leaves a canonical file-form path.
pub proof fn lemma_canon_strip(s: Seq<char>)
    requires
        norm(s) == s,
        ends_slash(s),
        s != root_path(),
    ensures
        s.drop_last().len() > 0,
        norm(s.drop_last()) == s.drop_last(),
        !ends_slash(s.drop_last()),
        s.drop_last().push('/') == s,
{
    lemma_canon_shape(s);
    let segs = resolve_segs(split_segs(s));
    assert forall|i: int|
        0 <= i < segs.len() implies (#[trigger] segs[i]).len() > 0 && no_slash_seg(segs[i]) by {
        assert(plain_seg(segs[i]));
    }
    let j = join_segs(segs);
    lemma_join_bounds(segs);
    assert(s =~= j.push('/'));
    assert(s.drop_last() =~= j);
    lemma_split_join(segs);
    lemma_resolve_plain_id(segs);
    assert(norm(j) == j);
}

/// Appending a slash to a canonical file-form path yields a canonical
/// directory path.
pub proof fn lemma_canon_add_slash(s: Seq<char>)
    requires
        norm(s) == s,
        !ends_slash(s),
    ensures
        norm(s.push('/')) == s.push('/'),
        ends_slash(s.push('/')),
        s.push('/') != root_path(),
{
    lemma_norm_nonempty(s);
    assert(s != root_path());
    lemma_canon_shape(s);
    let segs = resolve_segs(split_segs(s));
    assert forall|i: int|
        0 <= i < segs.len() implies (#[trigger] segs[i]).len() > 0 && no_slash_seg(segs[i]) by {
        assert(plain_seg(segs[i]));
    }
    let j = join_segs(segs);
    assert(s == j);
    lemma_split_add_slash(j);
    lemma_split_join(segs);
    lemma_resolve_push_empty(segs);
    lemma_resolve_plain_id(segs);
    let t = s.push('/');
    assert(resolve_segs(split_segs(t)) == segs);
    assert(ends_slash(t));
    assert(norm(t) =~= j + seq!['/']);
    assert(t =~= j + seq!['/']);
    assert(t.len() >= 2) by {
        lemma_join_bounds(segs);
    }
}

/// The Unicode White_Space characters.  `str::trim` removes them at the
/// ends of a string, and the backend trims every path it receives, so a
/// path handed to the backend must not begin or end with one.
pub open spec fn is_white(c: char) -> bool {
    c == '\u{9}' || c == '\u{A}' || c == '\u{B}' || c == '\u{C}' || c == '\u{D}' || c == ' ' || c
        == '\u{85}' || c == '\u{A0}' || c == '\u{1680}' || c == '\u{2000}' || c == '\u{2001}' || c
        == '\u{2002}' || c == '\u{2003}' || c == '\u{2004}' || c == '\u{2005}' || c == '\u{2006}'
        || c == '\u{2007}' || c == '\u{2008}' || c == '\u{2009}' || c == '\u{200A}' || c
        == '\u{2028}' || c == '\u{2029}' || c == '\u{202F}' || c == '\u{205F}' || c == '\u{3000}'
}

/// Whether `s` is nonempty and neither begins nor ends with white space,
/// so that the backend addresses it verbatim.
pub open spec fn ws_clean(s: Seq<char>) -> bool {
    s.len() > 0 && !is_white(s[0]) && !is_white(s[s.len() - 1])
}

/// A path in the exact form the backend is addressed with: canonical,
/// and untouched by the backend's own trimming.
pub open spec fn is_canonical_path(s: Seq<char>) -> bool {
    norm(s) == s && ws_clean(s)
}

/// Whether `c` is a Unicode White_Space character.
pub(crate) fn white(c: char) -> (r: bool)
    ensures
        r == is_white(c),
{
    c == '\u{9}' || c == '\u{A}' || c == '\u{B}' || c == '\u{C}' || c == '\u{D}' || c == ' ' || c
        == '\u{85}' || c == '\u{A0}' || c == '\u{1680}' || c == '\u{2000}' || c == '\u{2001}' || c
        == '\u{2002}' || c == '\u{2003}' || c == '\u{2004}' || c == '\u{2005}' || c == '\u{2006}'
        || c == '\u{2007}' || c == '\u{2008}' || c == '\u{2009}' || c == '\u{200A}' || c
        == '\u{2028}' || c == '\u{2029}' || c == '\u{202F}' || c == '\u{205F}' || c == '\u{3000}'
}

/// The views of a sequence of string slices.
pub open spec fn str_views(ss: Seq<&str>) -> Seq<Seq<char>> {
    ss.map_values(|t: &str| t@)
}

/// Index of the first `/` in `s`, or its length if there is none.
pub(crate) fn first_slash_index(s: &str) -> (r: usize)
    ensures
        r as int == first_slash(s@),
{
    let n: usize = s.unicode_len();
    let mut i: usize = 0;
    while i < n
        invariant
            n == s@.len(),
            i <= n,
            forall|k: int| 0 <= k < i ==> s@[k] != '/',
        decreases n - i,
    {
        if s.get_char(i) == '/' {
            proof {
                lemma_first_slash_at(s@, i as int);
            }
            return i;
        }
        i += 1;
    }
    proof {
        lemma_first_slash_at(s@, n as int);
    }
    n
}

/// Split `p` on `/`, keeping empty segments.
fn split_on_slash<'a>(p: &'a str) -> (r: Vec<&'a str>)
    ensures
        str_views(r@) == split_segs(p@),
{
    let n: usize = p.unicode_len();
    let mut raw: Vec<&'a str> = Vec::new();
    let mut start: usize = 0;
    let mut i: usize = 0;
    proof {
        assert(p@.skip(0) =~= p@);
        assert(str_views(raw@) + split_segs(p@) =~= split_segs(p@));
    }
    while i < n
        invariant
            n == p@.len(),
            start <= i <= n,
            forall|k: int| start <= k < i ==> p@[k] != '/',
            split_segs(p@) == str_views(raw@) + split_segs(p@.skip(start as int)),
        decreases n - i,
    {
        if p.get_char(i) == '/' {
            let seg = p.substring_char(start, i);
            proof {
                let sk = p@.skip(start as int);
                assert forall|k: int| 0 <= k < i - start implies sk[k] != '/' by {
                    assert(sk[k] == p@[start + k]);
                }
                assert(sk[i - start] == p@[i as int]);
                lemma_first_slash_at(sk, i - start);
                assert(sk.take(i - start) =~= seg@);
                assert(sk.skip(i - start + 1) =~= p@.skip(i + 1));
                assert(str_views(raw@.push(seg)) =~= str_views(raw@).push(seg@));
                assert(str_views(raw@) + (seq![seg@] + split_segs(p@.skip(i + 1))) =~= str_views(
                    raw@.push(seg),
                ) + split_segs(p@.skip(i + 1)));
            }
            raw.push(seg);
            start = i + 1;
        }
        i += 1;
    }
    let seg = p.substring_char(start, n);
    proof {
        let sk = p@.skip(start as int);
        assert forall|k: int| 0 <= k < sk.len() implies sk[k] != '/' by {
            assert(sk[k] == p@[start + k]);
        }
        lemma_first_slash_at(sk, sk.len() as int);
        assert(sk =~= seg@);
        assert(str_views(raw@.push(seg)) =~= str_views(raw@).push(seg@));
        assert(str_views(raw@) + seq![sk] =~= str_views(raw@).push(seg@));
    }
    raw.push(seg);
    raw
}

/// Join the segments with single slashes.
fn join_with_slashes(segs: &Vec<&str>) -> (r: String)
    ensures
        r@ == join_segs(str_views(segs@)),
{
    proof {
        reveal_strlit("/");
    }
    let mut out = String::new();
    let mut t: usize = 0;
    proof {
        assert(str_views(segs@).take(0) =~= Seq::<Seq<char>>::empty());
    }
    while t < segs.len()
        invariant
            t <= segs@.len(),
            out@ == join_segs(str_views(segs@).take(t as int)),
        decreases segs@.len() - t,
    {
        let ghost vs = str_views(segs@);
        let ghost before = out@;
        if t > 0 {
            out.append("/");
            proof {
                reveal_strlit("/");
                assert("/"@ =~= seq!['/']);
            }
        }
        out.append(segs[t]);
        proof {
            assert(vs.take(t as int).push(vs[t as int]) =~= vs.take(t + 1));
            lemma_join_push(vs.take(t as int), vs[t as int]);
            assert(vs[t as int] == segs@[t as int]@);
            if t > 0 {
                assert(out@ =~= join_segs(vs.take(t as int)) + seq!['/'] + vs[t as int]);
            } else {
                assert(out@ =~= vs[t as int]);
            }
        }
        t += 1;
    }
    proof {
        assert(str_views(segs@).take(segs@.len() as int) =~= str_views(segs@));
    }
    out
}

/// Canonicalize a path string: collapse repeated slashes, resolve `.`
/// and `..` segments, preserve a trailing slash, and map the empty path
/// to the root sentinel `/`.
pub fn normalize(p: &str) -> (r: String)
    ensures
        r@ == norm(p@),
{
    proof {
        reveal_strlit("/");
    }
    let n: usize = p.unicode_len();
    let raw = split_on_slash(p);
    let mut segs: Vec<&str> = Vec::new();
    let mut j: usize = 0;
    proof {
        assert(str_views(raw@).take(0) =~= Seq::<Seq<char>>::empty());
    }
    while j < raw.len()
        invariant
            j <= raw@.len(),
            str_views(raw@) == split_segs(p@),
            str_views(segs@) == resolve_segs(str_views(raw@).take(j as int)),
        decreases raw@.len() - j,
    {
        let seg = raw[j];
        let ghost vs = str_views(raw@);
        let ghost acc = str_views(segs@);
        proof {
            assert(vs.take(j + 1).drop_last() =~= vs.take(j as int));
            assert(vs.take(j + 1).last() == vs[j as int]);
            assert(resolve_segs(vs.take(j + 1)) == step_seg(
                resolve_segs(vs.take(j as int)),
                vs[j as int],
            ));
            assert(vs[j as int] == seg@);
        }
        let ln = seg.unicode_len();
        if ln == 0 {
        } else if ln == 1 && seg.get_char(0) == '.' {
            proof {
                assert(seg@ =~= seg_dot());
            }
        } else if ln == 2 && seg.get_char(0) == '.' && seg.get_char(1) == '.' {
            proof {
                assert(seg@ =~= seg_dotdot());
                assert(seg@ != seg_dot());
            }
            if segs.len() > 0 {
                let _ = segs.pop();
                proof {
                    assert(str_views(segs@) =~= acc.drop_last());
                }
            }
        } else {
            proof {
                if seg@ == seg_dot() {
                    assert(seg@.len() == 1 && seg@[0] == '.');
                    assert(false);
                }
                if seg@ == seg_dotdot() {
                    assert(seg@.len() == 2 && seg@[0] == '.' && seg@[1] == '.');
                    assert(false);
                }
            }
            segs.push(seg);
            proof {
                assert(str_views(segs@) =~= acc.push(seg@));
            }
        }
        j += 1;
    }
    proof {
        assert(str_views(raw@).take(raw@.len() as int) =~= str_views(raw@));
    }
    if segs.len() == 0 {
        let r = String::from_str("/");
        proof {
            assert(r@ =~= root_path());
        }
        return r;
    }
    let mut out = join_with_slashes(&segs);
    if n > 0 && p.get_char(n - 1) == '/' {
        out.append("/");
        proof {
            assert(ends_slash(p@));
            assert(out@ =~= join_segs(resolve_segs(split_segs(p@))) + seq!['/']);
        }
    } else {
        proof {
            assert(!ends_slash(p@));
        }
    }
    out
}

/// Canonicalize a backend root to the form `/a/b/` (or `/`).
pub fn normalize_root(r: &str) -> (out: String)
    ensures
        out@ == nroot(r@),
{
    proof {
        reveal_strlit("/");
    }
    let raw = split_on_slash(r);
    let mut segs: Vec<&str> = Vec::new();
    let mut j: usize = 0;
    proof {
        assert(str_views(raw@).take(0) =~= Seq::<Seq<char>>::empty());
    }
    while j < raw.len()
        invariant
            j <= raw@.len(),
            str_views(raw@) == split_segs(r@),
            str_views(segs@) == drop_empty(str_views(raw@).take(j as int)),
        decreases raw@.len() - j,
    {
        let seg = raw[j];
        let ghost vs = str_views(raw@);
        let ghost acc = str_views(segs@);
        proof {
            assert(vs.take(j + 1).drop_last() =~= vs.take(j as int));
            assert(vs.take(j + 1).last() == vs[j as int]);
            assert(vs[j as int] == seg@);
        }
        if seg.unicode_len() > 0 {
            segs.push(seg);
            proof {
                assert(str_views(segs@) =~= acc.push(seg@));
            }
        }
        j += 1;
    }
    proof {
        assert(str_views(raw@).take(raw@.len() as int) =~= str_views(raw@));
    }
    if segs.len() == 0 {
        let out = String::from_str("/");
        proof {
            assert(out@ =~= root_path());
        }
        return out;
    }
    let body = join_with_slashes(&segs);
    let mut out = String::from_str("/");
    out.append(body.as_str());
    out.append("/");
    proof {
        assert(out@ =~= seq!['/'] + join_segs(str_views(segs@)) + seq!['/']);
    }
    out
}

/// The root-qualified absolute form of the canonical path `q` under the
/// backend root `root`.
pub(crate) fn build_rooted(root: &str, q: &str) -> (r: String)
    ensures
        r@ == rooted_abs(root@, q@),
{
    let out = normalize_root(root);
    let n: usize = q.unicode_len();
    if n == 1 && q.get_char(0) == '/' {
        proof {
            assert(q@ =~= root_path());
        }
        return out;
    }
    proof {
        if q@ == root_path() {
            assert(q@.len() == 1 && q@[0] == '/');
            assert(false);
        }
    }
    let mut out = out;
    out.append(q);
    out
}

} // verus!
