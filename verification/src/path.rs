//! Unix paths held as byte strings.
//!
//! A path is split on `/` into segments; the empty segment and `.` are
//! trivial and vanish when a path is read as a list of components.

use vstd::prelude::*;

verus! {

/// The separator byte `/`.
pub open spec fn sep() -> u8 {
    47u8
}

/// The byte `.`.
pub open spec fn dot() -> u8 {
    46u8
}

/// The segment `..`.
pub open spec fn dotdot() -> Seq<u8> {
    seq![46u8, 46u8]
}

/// A segment that contributes no component: empty, or `.`.
pub open spec fn is_trivial(seg: Seq<u8>) -> bool {
    seg.len() == 0 || seg == seq![46u8]
}

/// Appends a finished segment to the list of components unless it is trivial.
pub open spec fn keep(done: Seq<Seq<u8>>, cur: Seq<u8>) -> Seq<Seq<u8>> {
    if is_trivial(cur) {
        done
    } else {
        done.push(cur)
    }
}

/// Reads `p` from left to right: the non-trivial segments finished so far,
/// and the segment still being read.
pub open spec fn scan(p: Seq<u8>) -> (Seq<Seq<u8>>, Seq<u8>)
    decreases p.len(),
{
    if p.len() == 0 {
        (Seq::empty(), Seq::empty())
    } else {
        let (done, cur) = scan(p.drop_last());
        if p.last() == sep() {
            (keep(done, cur), Seq::empty())
        } else {
            (done, cur.push(p.last()))
        }
    }
}

/// The non-trivial segments of `p`, in order: the names that `Path::components`
/// yields for it, less any root.
pub open spec fn parts(p: Seq<u8>) -> Seq<Seq<u8>> {
    keep(scan(p).0, scan(p).1)
}

/// Segments joined by single separators.
pub open spec fn join_parts(ps: Seq<Seq<u8>>) -> Seq<u8>
    decreases ps.len(),
{
    if ps.len() == 0 {
        Seq::empty()
    } else if ps.len() == 1 {
        ps[0]
    } else {
        join_parts(ps.drop_last()) + seq![sep()] + ps.last()
    }
}

/// `PathBuf::join` on Unix: an absolute `rel` replaces `base`; otherwise a
/// separator is put between them unless `base` is empty or already ends in one.
pub open spec fn spec_join(base: Seq<u8>, rel: Seq<u8>) -> Seq<u8> {
    if rel.len() > 0 && rel[0] == sep() {
        rel
    } else if base.len() == 0 || base.last() == sep() {
        base + rel
    } else {
        base + seq![sep()] + rel
    }
}

/// Copies the first `n` bytes of a slice into a new vector.
pub fn copy_prefix(s: &[u8], n: usize) -> (r: Vec<u8>)
    requires
        n <= s.len(),
    ensures
        r@ == s@.take(n as int),
{
    let mut r: Vec<u8> = Vec::new();
    let mut i: usize = 0;
    while i < n
        invariant
            i <= n <= s.len(),
            r@ == s@.take(i as int),
        decreases n - i,
    {
        r.push(s[i]);
        i += 1;
        assert(r@ =~= s@.take(i as int));
    }
    r
}

/// Copies a slice into a new vector.
pub fn copy_bytes(s: &[u8]) -> (r: Vec<u8>)
    ensures
        r@ == s@,
{
    assert(s@.take(s.len() as int) =~= s@);
    copy_prefix(s, s.len())
}

/// Whether a segment is trivial (empty or `.`).
fn segment_is_trivial(seg: &[u8]) -> (r: bool)
    ensures
        r == is_trivial(seg@),
{
    if seg.len() == 0 {
        true
    } else if seg.len() == 1 && seg[0] == 46u8 {
        assert(seg@ == seq![46u8]);
        true
    } else {
        false
    }
}

/// The views of a vector of byte vectors.
pub open spec fn views(v: Seq<Vec<u8>>) -> Seq<Seq<u8>> {
    v.map_values(|x: Vec<u8>| x@)
}

/// The non-trivial segments of a path, in order.
pub fn path_parts(p: &[u8]) -> (r: Vec<Vec<u8>>)
    ensures
        views(r@) == parts(p@),
{
    let mut done: Vec<Vec<u8>> = Vec::new();
    let mut cur: Vec<u8> = Vec::new();
    let mut i: usize = 0;
    assert(p@.take(0) =~= Seq::<u8>::empty());
    while i < p.len()
        invariant
            i <= p.len(),
            views(done@) == scan(p@.take(i as int)).0,
            cur@ == scan(p@.take(i as int)).1,
        decreases p.len() - i,
    {
        assert(p@.take(i + 1).drop_last() =~= p@.take(i as int));
        let b = p[i];
        if b == 47u8 {
            if !segment_is_trivial(cur.as_slice()) {
                let ghost before = done@;
                done.push(cur);
                assert(views(done@) =~= views(before).push(scan(p@.take(i as int)).1));
            }
            cur = Vec::new();
        } else {
            cur.push(b);
        }
        i += 1;
    }
    assert(p@.take(p.len() as int) =~= p@);
    if !segment_is_trivial(cur.as_slice()) {
        let ghost before = done@;
        done.push(cur);
        assert(views(done@) =~= views(before).push(scan(p@).1));
    }
    done
}


/// Appends the bytes of `s` to `v`.
pub fn extend_bytes(v: &mut Vec<u8>, s: &[u8])
    ensures
        final(v)@ == old(v)@ + s@,
{
    let ghost start = v@;
    let mut i: usize = 0;
    while i < s.len()
        invariant
            i <= s.len(),
            v@ == start + s@.take(i as int),
        decreases s.len() - i,
    {
        v.push(s[i]);
        i += 1;
        assert(v@ =~= start + s@.take(i as int));
    }
    assert(s@.take(s.len() as int) =~= s@);
}

/// `base` joined with `rel`, as `Path::join` does on Unix.
pub fn join(base: &[u8], rel: &[u8]) -> (r: Vec<u8>)
    ensures
        r@ == spec_join(base@, rel@),
{
    if rel.len() > 0 && rel[0] == 47u8 {
        copy_bytes(rel)
    } else {
        let mut r = copy_bytes(base);
        if base.len() > 0 && base[base.len() - 1] != 47u8 {
            r.push(47u8);
        }
        extend_bytes(&mut r, rel);
        r
    }
}


/// A segment as `scan` cuts it: no separator inside.
pub open spec fn no_sep(seg: Seq<u8>) -> bool {
    forall|j: int| 0 <= j < seg.len() ==> seg[j] != sep()
}

/// Every element is a non-trivial segment with no separator inside.
pub open spec fn well_cut(ps: Seq<Seq<u8>>) -> bool {
    forall|j: int| 0 <= j < ps.len() ==> !is_trivial(#[trigger] ps[j]) && no_sep(ps[j])
}

/// What `scan` produces is cut at separators and free of trivial segments.
pub proof fn lemma_scan_wf(p: Seq<u8>)
    ensures
        well_cut(scan(p).0),
        no_sep(scan(p).1),
    decreases p.len(),
{
    if p.len() > 0 {
        lemma_scan_wf(p.drop_last());
        let (done, cur) = scan(p.drop_last());
        if p.last() != sep() {
            assert forall|j: int| 0 <= j < cur.push(p.last()).len() implies cur.push(p.last())[j]
                != sep() by {
                if j < cur.len() {
                    assert(cur.push(p.last())[j] == cur[j]);
                }
            }
        }
    }
}

/// The components of a path are non-trivial segments with no separator inside.
pub proof fn lemma_parts_wf(p: Seq<u8>)
    ensures
        well_cut(parts(p)),
{
    lemma_scan_wf(p);
}

/// Joining at least one non-empty segment gives a non-empty path.
pub proof fn lemma_join_parts_nonempty(ps: Seq<Seq<u8>>)
    requires
        ps.len() > 0,
        well_cut(ps),
    ensures
        join_parts(ps).len() > 0,
{
    assert(!is_trivial(ps[ps.len() - 1]));
}


/// Reading a segment without separators just extends the pending segment.
pub proof fn lemma_scan_append_segment(a: Seq<u8>, b: Seq<u8>)
    requires
        no_sep(b),
    ensures
        scan(a + b) == (scan(a).0, scan(a).1 + b),
    decreases b.len(),
{
    if b.len() == 0 {
        assert(a + b =~= a);
        assert(scan(a).1 + b =~= scan(a).1);
    } else {
        let b0 = b.drop_last();
        assert((a + b).drop_last() =~= a + b0);
        assert(no_sep(b0)) by {
            assert forall|j: int| 0 <= j < b0.len() implies b0[j] != sep() by {
                assert(b0[j] == b[j]);
            }
        }
        lemma_scan_append_segment(a, b0);
        assert(b.last() == b[b.len() - 1]);
        assert((scan(a).1 + b0).push(b.last()) =~= scan(a).1 + b);
    }
}

/// Reading `a`, a separator, then `b`: the components of `a` come first, then
/// what reading `b` alone gives.
pub proof fn lemma_scan_after_sep(a: Seq<u8>, b: Seq<u8>)
    ensures
        scan(a + seq![sep()] + b) == (parts(a) + scan(b).0, scan(b).1),
    decreases b.len(),
{
    let a1 = a + seq![sep()];
    if b.len() == 0 {
        assert(a1 + b =~= a1);
        assert(a1.drop_last() =~= a);
        assert(parts(a) + scan(b).0 =~= parts(a));
    } else {
        let b0 = b.drop_last();
        assert((a1 + b).drop_last() =~= a1 + b0);
        lemma_scan_after_sep(a, b0);
        let (d0, c0) = scan(b0);
        if b.last() == sep() {
            if !is_trivial(c0) {
                assert((parts(a) + d0).push(c0) =~= parts(a) + d0.push(c0));
            }
        }
    }
}

/// The components of `a/b` are those of `a` followed by those of `b`.
pub proof fn lemma_parts_concat(a: Seq<u8>, b: Seq<u8>)
    ensures
        parts(a + seq![sep()] + b) == parts(a) + parts(b),
{
    lemma_scan_after_sep(a, b);
    let (d, c) = scan(b);
    if !is_trivial(c) {
        assert((parts(a) + d).push(c) =~= parts(a) + d.push(c));
    }
}

/// A segment without separators is its own single component, unless trivial.
pub proof fn lemma_parts_segment(s: Seq<u8>)
    requires
        no_sep(s),
    ensures
        scan(s) == (Seq::<Seq<u8>>::empty(), s),
        parts(s) == (if is_trivial(s) { Seq::<Seq<u8>>::empty() } else { seq![s] }),
{
    lemma_scan_append_segment(Seq::empty(), s);
    assert(Seq::<u8>::empty() + s =~= s);
    assert(Seq::<u8>::empty() + s =~= s);
    assert(Seq::<Seq<u8>>::empty().push(s) =~= seq![s]);
}

/// Reading back joined components gives the same components.
pub proof fn lemma_parts_of_join_parts(ps: Seq<Seq<u8>>)
    requires
        well_cut(ps),
    ensures
        parts(join_parts(ps)) == ps,
    decreases ps.len(),
{
    if ps.len() == 0 {
        assert(parts(Seq::<u8>::empty()) =~= ps);
    } else if ps.len() == 1 {
        assert(!is_trivial(ps[0]) && no_sep(ps[0]));
        lemma_parts_segment(ps[0]);
        assert(seq![ps[0]] =~= ps);
    } else {
        let d = ps.drop_last();
        assert(well_cut(d)) by {
            assert forall|j: int| 0 <= j < d.len() implies !is_trivial(#[trigger] d[j]) && no_sep(
                d[j],
            ) by {
                assert(d[j] == ps[j]);
            }
        }
        lemma_parts_of_join_parts(d);
        let l = ps.last();
        assert(!is_trivial(ps[ps.len() - 1]) && no_sep(ps[ps.len() - 1]));
        lemma_parts_segment(l);
        lemma_parts_concat(join_parts(d), l);
        assert(d + seq![l] =~= ps);
    }
}

/// A joined list of components starts with the first byte of its first component.
pub proof fn lemma_join_parts_first(ps: Seq<Seq<u8>>)
    requires
        ps.len() > 0,
        well_cut(ps),
    ensures
        join_parts(ps).len() > 0,
        join_parts(ps)[0] == ps[0][0],
    decreases ps.len(),
{
    assert(!is_trivial(ps[0]));
    if ps.len() > 1 {
        let d = ps.drop_last();
        assert(well_cut(d)) by {
            assert forall|j: int| 0 <= j < d.len() implies !is_trivial(#[trigger] d[j]) && no_sep(
                d[j],
            ) by {
                assert(d[j] == ps[j]);
            }
        }
        lemma_join_parts_first(d);
        assert(d[0] == ps[0]);
    }
}

/// The components of `base` joined with a relative, non-empty `rel` are those
/// of `base` followed by those of `rel`.
pub proof fn lemma_parts_join(base: Seq<u8>, rel: Seq<u8>)
    requires
        rel.len() > 0,
        rel[0] != sep(),
    ensures
        parts(spec_join(base, rel)) == parts(base) + parts(rel),
{
    if base.len() == 0 {
        assert(base + rel =~= rel);
        assert(parts(base) =~= Seq::<Seq<u8>>::empty());
        assert(parts(base) + parts(rel) =~= parts(rel));
    } else if base.last() == sep() {
        let b0 = base.drop_last();
        assert(base + rel =~= b0 + seq![sep()] + rel);
        lemma_parts_concat(b0, rel);
        assert(base =~= b0 + seq![sep()] + Seq::<u8>::empty());
        lemma_parts_concat(b0, Seq::<u8>::empty());
        assert(parts(Seq::<u8>::empty()) =~= Seq::<Seq<u8>>::empty());
        assert(parts(b0) + Seq::<Seq<u8>>::empty() =~= parts(b0));
    } else {
        lemma_parts_concat(base, rel);
    }
}

/// `Path::file_name` on Unix: the last component, unless there is none or it is `..`.
pub open spec fn spec_file_name(p: Seq<u8>) -> Option<Seq<u8>> {
    let ps = parts(p);
    if ps.len() == 0 || ps.last() == dotdot() {
        None
    } else {
        Some(ps.last())
    }
}

/// The final name of a path, as `Path::file_name` gives it on Unix.
pub fn file_name(p: &[u8]) -> (r: Option<Vec<u8>>)
    ensures
        match r {
            Some(n) => spec_file_name(p@) == Some(n@),
            None => spec_file_name(p@) is None,
        },
{
    let ps = path_parts(p);
    let n = ps.len();
    if n == 0 {
        return None;
    }
    let last = ps[n - 1].as_slice();
    assert(views(ps@)[n - 1] == last@);
    if last.len() == 2 && last[0] == 46u8 && last[1] == 46u8 {
        assert(last@ =~= dotdot());
        None
    } else {
        assert(last@ != dotdot());
        Some(copy_bytes(last))
    }
}


/// Whether the path starts at the root.
pub open spec fn has_root(p: Seq<u8>) -> bool {
    p.len() > 0 && p[0] == sep()
}

/// How many leading bytes stand before the first named component: the root,
/// or a leading `.` that the components keep (`.` alone, or `./...`).
pub open spec fn len_before_body(p: Seq<u8>) -> int {
    if has_root(p) {
        1
    } else if p.len() > 0 && p[0] == dot() && (p.len() == 1 || p[1] == sep()) {
        1
    } else {
        0
    }
}

/// Whether the path ends in a `.` segment.
pub open spec fn ends_in_dot_segment(p: Seq<u8>) -> bool {
    p.len() > 0 && p.last() == dot() && (p.len() == 1 || p[p.len() - 2] == sep())
}

/// Drops trailing separators and `.` segments, never going below `lb` bytes.
pub open spec fn trim_end(p: Seq<u8>, lb: int) -> Seq<u8>
    decreases p.len(),
{
    if p.len() == 0 || p.len() <= lb {
        p
    } else if p.last() == sep() || ends_in_dot_segment(p) {
        trim_end(p.drop_last(), lb)
    } else {
        p
    }
}

/// Drops the last segment and the separator before it, never going below `lb` bytes.
pub open spec fn drop_last_segment(p: Seq<u8>, lb: int) -> Seq<u8>
    decreases p.len(),
{
    if p.len() == 0 || p.len() <= lb {
        p
    } else if p.last() == sep() {
        p.drop_last()
    } else {
        drop_last_segment(p.drop_last(), lb)
    }
}

/// `Path::parent` on Unix: `None` for the empty path and for the root alone;
/// `Some` of the empty path when only a leading `.` is left; otherwise the path
/// without its last component, with trailing separators and `.` segments removed.
pub open spec fn spec_parent(p: Seq<u8>) -> Option<Seq<u8>> {
    let lb = len_before_body(p);
    let t = trim_end(p, lb);
    if t.len() <= lb {
        if lb == 1 && !has_root(p) {
            Some(Seq::empty())
        } else {
            None
        }
    } else {
        Some(trim_end(drop_last_segment(t, lb), lb))
    }
}

/// Trims trailing separators and `.` segments from the first `n` bytes of `p`,
/// never going below `lb` bytes; returns the length left.
fn trim_end_len(p: &[u8], n: usize, lb: usize) -> (r: usize)
    requires
        n <= p.len(),
    ensures
        r <= n,
        p@.take(r as int) == trim_end(p@.take(n as int), lb as int),
{
    let mut k = n;
    while k > lb && (p[k - 1] == 47u8 || (p[k - 1] == 46u8 && (k == 1 || p[k - 2] == 47u8)))
        invariant
            k <= n <= p.len(),
            trim_end(p@.take(k as int), lb as int) == trim_end(p@.take(n as int), lb as int),
        decreases k,
    {
        assert(p@.take(k as int).drop_last() =~= p@.take(k - 1));
        k -= 1;
    }
    k
}

/// The parent of a path, as `Path::parent` gives it on Unix.
pub fn parent(p: &[u8]) -> (r: Option<Vec<u8>>)
    ensures
        match r {
            Some(q) => spec_parent(p@) == Some(q@),
            None => spec_parent(p@) is None,
        },
{
    let rooted = p.len() > 0 && p[0] == 47u8;
    let lb: usize = if rooted {
        1
    } else if p.len() > 0 && p[0] == 46u8 && (p.len() == 1 || p[1] == 47u8) {
        1
    } else {
        0
    };
    assert(lb as int == len_before_body(p@));
    assert(p@.take(p.len() as int) =~= p@);
    let t = trim_end_len(p, p.len(), lb);
    if t <= lb {
        if lb == 1 && !rooted {
            return Some(Vec::new());
        } else {
            return None;
        }
    }
    let mut k = t;
    while k > lb && p[k - 1] != 47u8
        invariant
            lb < t <= p.len(),
            k <= t,
            drop_last_segment(p@.take(k as int), lb as int) == drop_last_segment(
                p@.take(t as int),
                lb as int,
            ),
        decreases k,
    {
        assert(p@.take(k as int).drop_last() =~= p@.take(k - 1));
        k -= 1;
    }
    if k > lb {
        assert(p@.take(k as int).drop_last() =~= p@.take(k - 1));
        k -= 1;
    }
    assert(p@.take(k as int) == drop_last_segment(p@.take(t as int), lb as int));
    let e = trim_end_len(p, k, lb);
    Some(copy_prefix(p, e))
}


/// Trimming keeps a prefix of the path.
proof fn lemma_trim_end_prefix(p: Seq<u8>, lb: int)
    ensures
        trim_end(p, lb).len() <= p.len(),
        trim_end(p, lb) == p.take(trim_end(p, lb).len() as int),
    decreases p.len(),
{
    if p.len() == 0 || p.len() <= lb {
        assert(p.take(p.len() as int) =~= p);
    } else if p.last() == sep() || ends_in_dot_segment(p) {
        lemma_trim_end_prefix(p.drop_last(), lb);
        let t = trim_end(p, lb);
        assert(p.drop_last().take(t.len() as int) =~= p.take(t.len() as int));
    } else {
        assert(p.take(p.len() as int) =~= p);
    }
}

/// Dropping the last segment keeps a prefix of the path.
proof fn lemma_drop_last_segment_prefix(p: Seq<u8>, lb: int)
    ensures
        drop_last_segment(p, lb).len() <= p.len(),
        drop_last_segment(p, lb) == p.take(drop_last_segment(p, lb).len() as int),
    decreases p.len(),
{
    if p.len() == 0 || p.len() <= lb {
        assert(p.take(p.len() as int) =~= p);
    } else if p.last() == sep() {
        assert(p.drop_last() =~= p.take(p.len() - 1));
    } else {
        lemma_drop_last_segment_prefix(p.drop_last(), lb);
        let d = drop_last_segment(p, lb);
        assert(p.drop_last().take(d.len() as int) =~= p.take(d.len() as int));
    }
}

/// The parent of a path is a prefix of it, so a directory created as a parent
/// lies along the path itself.
pub proof fn law_parent_is_prefix(p: Seq<u8>)
    ensures
        spec_parent(p) matches Some(q) ==> q.len() <= p.len() && q == p.take(q.len() as int),
{
    let lb = len_before_body(p);
    let t = trim_end(p, lb);
    lemma_trim_end_prefix(p, lb);
    if t.len() <= lb {
        assert(p.take(0) =~= Seq::<u8>::empty());
    } else {
        let d = drop_last_segment(t, lb);
        lemma_drop_last_segment_prefix(t, lb);
        lemma_trim_end_prefix(d, lb);
        let q = trim_end(d, lb);
        assert(t.take(d.len() as int) =~= p.take(d.len() as int));
        assert(d.take(q.len() as int) =~= p.take(q.len() as int));
    }
}


/// After a separator nothing is pending.
proof fn lemma_scan_after_trailing_sep(y: Seq<u8>)
    requires
        y.len() > 0,
        y.last() == sep(),
    ensures
        scan(y).1 == Seq::<u8>::empty(),
{
}

/// Trailing separators and `.` segments carry no component.
proof fn lemma_trim_end_parts(x: Seq<u8>, lb: int)
    ensures
        parts(trim_end(x, lb)) == parts(x),
    decreases x.len(),
{
    if x.len() == 0 || x.len() <= lb {
    } else if x.last() == sep() {
        lemma_trim_end_parts(x.drop_last(), lb);
    } else if ends_in_dot_segment(x) {
        lemma_trim_end_parts(x.drop_last(), lb);
        let y = x.drop_last();
        if y.len() == 0 {
            assert(Seq::<u8>::empty().push(dot()) =~= seq![46u8]);
        } else {
            assert(y.last() == x[x.len() - 2]);
            lemma_scan_after_trailing_sep(y);
            assert(Seq::<u8>::empty().push(dot()) =~= seq![46u8]);
        }
    }
}

/// Where trimming stops above `lb`, the last segment is a real name.
proof fn lemma_trim_end_stops_at_name(x: Seq<u8>, lb: int)
    requires
        lb >= 0,
    ensures
        trim_end(x, lb).len() > lb ==> trim_end(x, lb).last() != sep() && !ends_in_dot_segment(
            trim_end(x, lb),
        ),
    decreases x.len(),
{
    if x.len() == 0 || x.len() <= lb {
    } else if x.last() == sep() || ends_in_dot_segment(x) {
        lemma_trim_end_stops_at_name(x.drop_last(), lb);
    }
}

/// The position of the last separator at or after `lb`, or -1.
pub open spec fn last_sep_from(t: Seq<u8>, lb: int) -> int
    decreases t.len(),
{
    if t.len() == 0 || t.len() <= lb {
        -1
    } else if t.last() == sep() {
        t.len() - 1
    } else {
        last_sep_from(t.drop_last(), lb)
    }
}

/// What `drop_last_segment` keeps: everything before the last separator at or
/// after `lb`, or the first `lb` bytes when there is none.
proof fn lemma_drop_last_segment_shape(t: Seq<u8>, lb: int)
    requires
        0 <= lb < t.len(),
    ensures
        last_sep_from(t, lb) >= lb ==> ({
            let k = last_sep_from(t, lb);
            &&& k < t.len()
            &&& t[k] == sep()
            &&& no_sep(t.subrange(k + 1, t.len() as int))
            &&& drop_last_segment(t, lb) == t.take(k)
        }),
        last_sep_from(t, lb) < lb ==> no_sep(t.subrange(lb, t.len() as int)) && drop_last_segment(t, lb)
            == t.take(lb),
    decreases t.len(),
{
    let k = last_sep_from(t, lb);
    if t.last() == sep() {
        assert(t.subrange(k + 1, t.len() as int) =~= Seq::<u8>::empty());
        assert(t.drop_last() =~= t.take(k));
    } else if t.len() - 1 == lb {
        assert(last_sep_from(t.drop_last(), lb) == -1);
        assert(drop_last_segment(t.drop_last(), lb) == t.drop_last());
        assert(t.drop_last() =~= t.take(lb));
        let b = t.subrange(lb, t.len() as int);
        assert forall|j: int| 0 <= j < b.len() implies #[trigger] b[j] != sep() by {
            assert(j == 0);
        }
    } else {
        let u = t.drop_last();
        lemma_drop_last_segment_shape(u, lb);
        assert(k == last_sep_from(u, lb));
        assert(drop_last_segment(t, lb) == drop_last_segment(u, lb));
        let from = if k >= lb { k + 1 } else { lb };
        let b = t.subrange(from, t.len() as int);
        let bu = u.subrange(from, u.len() as int);
        assert forall|j: int| 0 <= j < b.len() implies #[trigger] b[j] != sep() by {
            if from + j < t.len() - 1 {
                assert(b[j] == bu[j]);
            } else {
                assert(b[j] == t.last());
            }
        }
        if k >= lb {
            assert(t[k] == u[k]);
            assert(u.take(k) =~= t.take(k));
        } else {
            assert(u.take(lb) =~= t.take(lb));
        }
    }
}

/// Dropping a real last name drops the last component.
proof fn lemma_drop_last_segment_parts(t: Seq<u8>, lb: int)
    requires
        0 <= lb < t.len(),
        lb == len_before_body(t),
        t.last() != sep(),
        !ends_in_dot_segment(t),
    ensures
        parts(drop_last_segment(t, lb)) == parts(t).drop_last(),
{
    lemma_drop_last_segment_shape(t, lb);
    let k = last_sep_from(t, lb);
    if k >= lb {
        let a = t.take(k);
        let b = t.subrange(k + 1, t.len() as int);
        assert(t =~= a + seq![sep()] + b);
        lemma_parts_concat(a, b);
        assert(b.last() == t.last());
        if b.len() == 1 && b[0] == dot() {
            assert(t[t.len() - 2] == sep());
        }
        assert(!is_trivial(b)) by {
            if b == seq![46u8] {
                assert(b[0] == dot());
            }
        }
        lemma_parts_segment(b);
        assert((parts(a) + seq![b]).drop_last() =~= parts(a));
    } else {
        let b = t.subrange(lb, t.len() as int);
        if lb == 0 {
            assert(b =~= t);
            assert(!is_trivial(b)) by {
                if b == seq![46u8] {
                    assert(t.len() == 1 && t.last() == dot());
                }
            }
            lemma_parts_segment(b);
            assert(t.take(0) =~= Seq::<u8>::empty());
            assert(parts(Seq::<u8>::empty()) =~= seq![b].drop_last());
        } else {
            if t[0] != sep() {
                assert(t.len() > 1);
                assert(b[0] == t[1]);
            }
            let e = Seq::<u8>::empty();
            assert(t =~= e + seq![sep()] + b);
            lemma_parts_concat(e, b);
            assert(!is_trivial(b)) by {
                if b == seq![46u8] {
                    assert(t[t.len() - 2] == sep());
                }
            }
            lemma_parts_segment(b);
            assert(t.take(1) =~= e + seq![sep()] + e);
            lemma_parts_concat(e, e);
            assert(parts(e) =~= Seq::<Seq<u8>>::empty());
            assert((parts(e) + seq![b]).drop_last() =~= parts(e) + parts(e));
        }
    }
}

/// A path that keeps `n > lb` bytes of `p`, and does not end in a separator
/// or a `.` segment, starts the same way as `p`.
proof fn lemma_len_before_body_prefix(p: Seq<u8>, n: int)
    requires
        len_before_body(p) < n <= p.len(),
        p.take(n).last() != sep(),
        !ends_in_dot_segment(p.take(n)),
    ensures
        len_before_body(p.take(n)) == len_before_body(p),
{
    let t = p.take(n);
    assert(t[0] == p[0]);
    if n >= 2 {
        assert(t[1] == p[1]);
    }
}

/// The parent of a path with at least one component has all its components
/// but the last: `Path::parent` drops the final component.
pub proof fn law_parent_drops_last_component(p: Seq<u8>)
    requires
        parts(p).len() > 0,
    ensures
        spec_parent(p) is Some,
        parts(spec_parent(p)->Some_0) == parts(p).drop_last(),
{
    let lb = len_before_body(p);
    let t = trim_end(p, lb);
    lemma_trim_end_parts(p, lb);
    lemma_trim_end_prefix(p, lb);
    lemma_trim_end_stops_at_name(p, lb);
    if t.len() <= lb {
        if t.len() == 0 {
            assert(parts(t) =~= Seq::<Seq<u8>>::empty());
        } else {
            assert(t[0] == p[0]);
            if t[0] == sep() {
                assert(t =~= Seq::<u8>::empty() + seq![sep()] + Seq::<u8>::empty());
                lemma_parts_concat(Seq::<u8>::empty(), Seq::<u8>::empty());
            } else {
                assert(t =~= seq![46u8]);
                lemma_parts_segment(t);
            }
            assert(parts(Seq::<u8>::empty()) =~= Seq::<Seq<u8>>::empty());
        }
        assert(false);
    } else {
        lemma_len_before_body_prefix(p, t.len() as int);
        lemma_drop_last_segment_parts(t, lb);
        lemma_trim_end_parts(drop_last_segment(t, lb), lb);
    }
}


/// A path with a file name is, component by component, its parent joined with
/// that file name.
pub proof fn law_parent_join_file_name(p: Seq<u8>)
    requires
        spec_file_name(p) is Some,
    ensures
        spec_parent(p) is Some,
        parts(spec_join(spec_parent(p)->Some_0, spec_file_name(p)->Some_0)) == parts(p),
{
    let ps = parts(p);
    let n = ps.last();
    law_parent_drops_last_component(p);
    lemma_parts_wf(p);
    assert(!is_trivial(ps[ps.len() - 1]) && no_sep(ps[ps.len() - 1]));
    assert(n[0] != sep());
    lemma_parts_segment(n);
    lemma_parts_join(spec_parent(p)->Some_0, n);
    assert(ps.drop_last() + seq![n] =~= ps);
}


/// Joining a relative path keeps `base` as the start of the result and adds
/// the components of `rel` after those of `base`; an absolute `rel` replaces
/// `base`.
pub proof fn law_join(base: Seq<u8>, rel: Seq<u8>)
    ensures
        (rel.len() == 0 || rel[0] != sep()) ==> spec_join(base, rel).take(base.len() as int) == base,
        (rel.len() > 0 && rel[0] != sep()) ==> parts(spec_join(base, rel)) == parts(base) + parts(
            rel,
        ),
        (rel.len() > 0 && rel[0] == sep()) ==> spec_join(base, rel) == rel,
        (rel.len() == 0 || rel[0] != sep()) && base.len() > 0 && base.last() != sep() ==> spec_join(
            base,
            rel,
        ) == base + seq![sep()] + rel,
        (rel.len() == 0 || rel[0] != sep()) && (base.len() == 0 || base.last() == sep()) ==> spec_join(
            base,
            rel,
        ) == base + rel,
{
    if rel.len() == 0 || rel[0] != sep() {
        assert(spec_join(base, rel).take(base.len() as int) =~= base);
    }
    if rel.len() > 0 && rel[0] != sep() {
        lemma_parts_join(base, rel);
    }
}

/// A name with no separator, other than `` and `.`, is a single component;
/// separators and `.` segments contribute none.
pub proof fn law_parts_of_names(name: Seq<u8>)
    requires
        no_sep(name),
    ensures
        name.len() > 0 && name != seq![46u8] ==> parts(name) == seq![name],
        parts(seq![46u8]) == Seq::<Seq<u8>>::empty(),
        parts(seq![47u8]) == Seq::<Seq<u8>>::empty(),
        parts(Seq::<u8>::empty()) == Seq::<Seq<u8>>::empty(),
{
    lemma_parts_segment(name);
    let d = seq![46u8];
    assert(no_sep(d));
    lemma_parts_segment(d);
    assert(seq![47u8] =~= Seq::<u8>::empty() + seq![sep()] + Seq::<u8>::empty());
    lemma_parts_concat(Seq::<u8>::empty(), Seq::<u8>::empty());
    assert(parts(Seq::<u8>::empty()) =~= Seq::<Seq<u8>>::empty());
}


/// Components are joined by exactly one separator each.
pub proof fn law_join_parts(ps: Seq<Seq<u8>>, a: Seq<u8>)
    ensures
        join_parts(Seq::<Seq<u8>>::empty()) == Seq::<u8>::empty(),
        join_parts(seq![a]) == a,
        ps.len() > 0 ==> join_parts(ps.push(a)) == join_parts(ps) + seq![sep()] + a,
{
    assert(seq![a][0] == a);
    if ps.len() > 0 {
        assert(ps.push(a).drop_last() =~= ps);
    }
}

/// A parent ends in a name: it is empty, the root, `.`, or a path that ends
/// neither in a separator nor in a `.` segment.
pub proof fn law_parent_is_trimmed(p: Seq<u8>)
    ensures
        spec_parent(p) matches Some(q) ==> (q.len() == 0 || q == seq![47u8] || q == seq![46u8] || (
        q.last() != sep() && !ends_in_dot_segment(q))),
{
    let lb = len_before_body(p);
    let t = trim_end(p, lb);
    lemma_trim_end_prefix(p, lb);
    if t.len() > lb {
        let d = drop_last_segment(t, lb);
        lemma_drop_last_segment_prefix(t, lb);
        lemma_trim_end_prefix(d, lb);
        lemma_trim_end_stops_at_name(d, lb);
        let q = trim_end(d, lb);
        assert(t.take(d.len() as int) =~= p.take(d.len() as int));
        assert(d.take(q.len() as int) =~= p.take(q.len() as int));
        if q.len() <= lb && q.len() == 1 {
            assert(q[0] == p[0]);
            if p[0] == sep() {
                assert(q =~= seq![47u8]);
            } else {
                assert(q =~= seq![46u8]);
            }
        }
    }
}

} // verus!
