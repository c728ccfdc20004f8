//! Path checks and the decisions behind the file-system helpers.

use vstd::prelude::*;
use crate::path::{
    copy_bytes, dotdot, extend_bytes, join, join_parts, lemma_join_parts_first, lemma_join_parts_nonempty,
    lemma_parts_join, lemma_parts_of_join_parts, lemma_parts_wf, parts, path_parts, sep,
    spec_file_name, spec_join, views, is_trivial, no_sep,
};

verus! {

/// Why an archive entry's path was refused.
#[derive(Debug, Clone, Copy, PartialEq, Eq, Structural)]
pub enum UnsafePathError {
    /// The path names nothing.
    Empty,
    /// The path is absolute.
    Absolute,
    /// The path holds a `..` segment.
    Traversal,
}

/// What `safe_join` gives: `Empty` for an empty `rel`, `Absolute` for one that
/// starts at the root, `Traversal` for one with a `..` segment, `Empty` again for
/// one with no name in it (only `.` and separators), and otherwise `base`
/// joined with the names of `rel` separated by single `/`.
pub open spec fn spec_safe_join(base: Seq<u8>, rel: Seq<u8>) -> Result<Seq<u8>, UnsafePathError> {
    if rel.len() == 0 {
        Err(UnsafePathError::Empty)
    } else if rel[0] == sep() {
        Err(UnsafePathError::Absolute)
    } else if parts(rel).contains(dotdot()) {
        Err(UnsafePathError::Traversal)
    } else if parts(rel).len() == 0 {
        Err(UnsafePathError::Empty)
    } else {
        Ok(spec_join(base, join_parts(parts(rel))))
    }
}

/// Whether a segment is `..`.
fn is_dotdot(seg: &[u8]) -> (r: bool)
    ensures
        r == (seg@ == dotdot()),
{
    if seg.len() == 2 && seg[0] == 46u8 && seg[1] == 46u8 {
        assert(seg@ =~= dotdot());
        true
    } else {
        false
    }
}

/// Joins the relative path `rel` of an archive entry onto `base`, refusing
/// paths that are empty, absolute or that climb with `..`; `.` segments and
/// repeated separators are dropped.
pub fn safe_join(base: &[u8], rel: &[u8]) -> (r: Result<Vec<u8>, UnsafePathError>)
    ensures
        match r {
            Ok(p) => spec_safe_join(base@, rel@) == Ok::<Seq<u8>, UnsafePathError>(p@),
            Err(e) => spec_safe_join(base@, rel@) == Err::<Seq<u8>, UnsafePathError>(e),
        },
{
    if rel.len() == 0 {
        return Err(UnsafePathError::Empty);
    }
    if rel[0] == 47u8 {
        return Err(UnsafePathError::Absolute);
    }
    let ps = path_parts(rel);
    let ghost parts_rel = parts(rel@);
    let mut clean: Vec<u8> = Vec::new();
    let mut i: usize = 0;
    while i < ps.len()
        invariant
            i <= ps.len(),
            rel@.len() > 0,
            rel@[0] != sep(),
            views(ps@) == parts_rel,
            parts_rel == parts(rel@),
            clean@ == join_parts(parts_rel.take(i as int)),
            forall|j: int| 0 <= j < i ==> parts_rel[j] != dotdot(),
        decreases ps.len() - i,
    {
        assert(parts_rel[i as int] == ps@[i as int]@);
        if is_dotdot(ps[i].as_slice()) {
            assert(parts_rel.contains(dotdot()));
            return Err(UnsafePathError::Traversal);
        }
        if i > 0 {
            clean.push(47u8);
        }
        extend_bytes(&mut clean, ps[i].as_slice());
        assert(parts_rel.take(i + 1).drop_last() =~= parts_rel.take(i as int));
        i += 1;
    }
    assert(parts_rel.take(ps.len() as int) =~= parts_rel);
    proof {
        if parts_rel.contains(dotdot()) {
            let k = choose|k: int| 0 <= k < parts_rel.len() && parts_rel[k] == dotdot();
            assert(parts_rel[k] != dotdot());
        }
    }
    proof {
        lemma_parts_wf(rel@);
        if parts_rel.len() > 0 {
            lemma_join_parts_nonempty(parts_rel);
        }
    }
    if clean.len() == 0 {
        return Err(UnsafePathError::Empty);
    }
    Ok(join(base, clean.as_slice()))
}


/// An accepted entry path never leaves `base`: the result is `base`, then (where
/// needed) one separator, then a non-empty relative remainder; the components of
/// the result are those of `base` followed by exactly the names of `rel`, and
/// none of those is `..`.
pub proof fn law_safe_join_stays_under_base(base: Seq<u8>, rel: Seq<u8>)
    requires
        spec_safe_join(base, rel) is Ok,
    ensures
        ({
            let p = spec_safe_join(base, rel)->Ok_0;
            let rest = join_parts(parts(rel));
            &&& p == spec_join(base, rest)
            &&& rest.len() > 0
            &&& rest[0] != sep()
            &&& p.take(base.len() as int) == base
            &&& parts(rest) == parts(rel)
            &&& parts(p) == parts(base) + parts(rel)
            &&& !parts(rel).contains(dotdot())
        }),
{
    let ps = parts(rel);
    let rest = join_parts(ps);
    lemma_parts_wf(rel);
    lemma_join_parts_first(ps);
    assert(!is_trivial(ps[0]) && no_sep(ps[0]));
    assert(ps[0][0] != sep());
    lemma_parts_of_join_parts(ps);
    lemma_parts_join(base, rest);
    assert(spec_join(base, rest).take(base.len() as int) =~= base);
}

/// Every entry path that is non-empty, relative, names something and has no
/// `..` component is accepted, however many components it has: the result
/// starts with `base`, its components are those of `base` followed by those of
/// `rel`, and when `base` is non-empty and does not end in `/`, it is `base`,
/// one `/`, and the names of `rel` joined by single `/`.
pub proof fn law_safe_join_accepts_clean_paths(base: Seq<u8>, rel: Seq<u8>)
    requires
        rel.len() > 0,
        rel[0] != sep(),
        parts(rel).len() > 0,
        !parts(rel).contains(dotdot()),
    ensures
        spec_safe_join(base, rel) is Ok,
        spec_safe_join(base, rel)->Ok_0.take(base.len() as int) == base,
        parts(spec_safe_join(base, rel)->Ok_0) == parts(base) + parts(rel),
        base.len() > 0 && base.last() != sep() ==> spec_safe_join(base, rel)->Ok_0 == base + seq![
            sep(),
        ] + join_parts(parts(rel)),
{
    law_safe_join_stays_under_base(base, rel);
}

/// The refusals of `safe_join`, whatever `base` is: an empty entry path is
/// `Empty`; one starting with `/` is `Absolute`; a relative one with a `..`
/// component is `Traversal`; a relative one with no `..` and no name is `Empty`.
pub proof fn law_safe_join_refusals(base: Seq<u8>, rel: Seq<u8>)
    ensures
        rel.len() == 0 ==> spec_safe_join(base, rel) == Err::<Seq<u8>, UnsafePathError>(
            UnsafePathError::Empty,
        ),
        rel.len() > 0 && rel[0] == sep() ==> spec_safe_join(base, rel) == Err::<
            Seq<u8>,
            UnsafePathError,
        >(UnsafePathError::Absolute),
        rel.len() > 0 && rel[0] != sep() && parts(rel).contains(dotdot()) ==> spec_safe_join(
            base,
            rel,
        ) == Err::<Seq<u8>, UnsafePathError>(UnsafePathError::Traversal),
        rel.len() > 0 && rel[0] != sep() && !parts(rel).contains(dotdot()) && parts(rel).len() == 0
            ==> spec_safe_join(base, rel) == Err::<Seq<u8>, UnsafePathError>(UnsafePathError::Empty),
{
}

/// Cleaning an accepted entry path first changes nothing: `safe_join` of `base`
/// and the names of `rel` joined by single separators gives the same path.
pub proof fn law_safe_join_idempotent(base: Seq<u8>, rel: Seq<u8>)
    requires
        spec_safe_join(base, rel) is Ok,
    ensures
        spec_safe_join(base, join_parts(parts(rel))) == spec_safe_join(base, rel),
{
    law_safe_join_stays_under_base(base, rel);
}

/// The final name of an accepted path is the last name of the entry path.
pub proof fn law_safe_join_file_name(base: Seq<u8>, rel: Seq<u8>)
    requires
        spec_safe_join(base, rel) is Ok,
    ensures
        spec_file_name(spec_safe_join(base, rel)->Ok_0) == Some(parts(rel).last()),
{
    law_safe_join_stays_under_base(base, rel);
    let p = spec_safe_join(base, rel)->Ok_0;
    assert((parts(base) + parts(rel)).last() == parts(rel).last());
    if parts(rel).last() == dotdot() {
        assert(parts(rel).contains(dotdot()));
    }
}


/// The permission bits of a Unix mode: its low nine bits.
pub open spec fn spec_permission_bits(mode: u32) -> u32 {
    mode & 0o777u32
}

/// The permission bits of a file mode, as they are applied to written files.
pub fn permission_bits(mode: u32) -> (r: u32)
    ensures
        r == spec_permission_bits(mode),
        r <= 0o777,
        r == mode % 512,
{
    let r = mode & 0o777u32;
    assert(r <= 0o777 && r == mode % 512) by (bit_vector)
        requires
            r == mode & 0o777u32,
    ;
    r
}


/// An entry found in a directory: its path, and whether it is a directory
/// (following symbolic links).
#[derive(Debug, Clone, PartialEq, Eq)]
pub struct DirEntryInfo {
    pub path: Vec<u8>,
    pub is_dir: bool,
}

/// The directory whose contents to take: the only entry of `path` when there
/// is exactly one and it is a directory, and `path` itself otherwise.
pub fn single_child_dir_or_self(path: &[u8], entries: &[DirEntryInfo]) -> (r: Vec<u8>)
    ensures
        r@ == (if entries@.len() == 1 && entries@[0].is_dir {
            entries@[0].path@
        } else {
            path@
        }),
{
    if entries.len() == 1 && entries[0].is_dir {
        copy_bytes(entries[0].path.as_slice())
    } else {
        copy_bytes(path)
    }
}

/// What is found at a path, read without following a final symbolic link.
#[derive(Debug, Clone, Copy, PartialEq, Eq, Structural)]
pub struct PathKind {
    pub is_dir: bool,
    pub is_symlink: bool,
}

/// How to clear a path before something is moved there.
#[derive(Debug, Clone, Copy, PartialEq, Eq, Structural)]
pub enum Removal {
    /// Nothing is there.
    Nothing,
    /// A real directory: remove it with its contents.
    RemoveDirAll,
    /// A file or a symbolic link: remove the entry itself.
    RemoveFile,
}

/// How to remove what is at a path (`None` when nothing is there): a directory
/// that is not a symbolic link is removed with its contents, anything else as a
/// single entry.
pub fn removal_for(found: Option<PathKind>) -> (r: Removal)
    ensures
        r == (match found {
            None => Removal::Nothing,
            Some(k) => if k.is_dir && !k.is_symlink {
                Removal::RemoveDirAll
            } else {
                Removal::RemoveFile
            },
        }),
{
    match found {
        None => Removal::Nothing,
        Some(k) => if k.is_dir && !k.is_symlink {
            Removal::RemoveDirAll
        } else {
            Removal::RemoveFile
        },
    }
}

} // verus!
