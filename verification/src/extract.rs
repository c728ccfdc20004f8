//! Archive type detection and the per-entry extraction decisions.

use vstd::prelude::*;
use vstd::utf8::{decode_utf8, encode_utf8, encode_utf8_decode_utf8, valid_utf8};
use crate::fs_utils::{
    law_safe_join_stays_under_base, permission_bits, safe_join, spec_safe_join, UnsafePathError,
};
use crate::path::{
    copy_bytes, dotdot, file_name, is_trivial, law_parent_is_prefix, lemma_parts_join,
    lemma_parts_segment, no_sep, parent, parts, sep, spec_file_name, spec_join, spec_parent,
    law_parent_drops_last_component,
};
use crate::fs_utils::law_safe_join_accepts_clean_paths;

verus! {

/// The archive formats that can be extracted.
#[derive(Debug, Clone, Copy, PartialEq, Eq, Structural)]
pub enum ArchiveType {
    Zip,
    Tar,
    TarGz,
    TarXz,
    TarBz2,
    TarZst,
    SevenZip,
    Rar,
}

/// The container format an unsafe entry path was found in.
#[derive(Debug, Clone, Copy, PartialEq, Eq, Structural)]
pub enum ArchiveFormat {
    Zip,
    Tar,
}

impl ArchiveFormat {
    /// The name used for the format in messages.
    pub fn label(&self) -> (r: &'static str)
        ensures
            *self == ArchiveFormat::Zip ==> r@ == "ZIP"@,
            *self == ArchiveFormat::Tar ==> r@ == "TAR"@,
    {
        match self {
            ArchiveFormat::Zip => "ZIP",
            ArchiveFormat::Tar => "TAR",
        }
    }
}

/// The errors that the extraction decisions raise; reading and writing files
/// adds errors of its own around these.
#[derive(Debug, Clone, PartialEq, Eq)]
pub enum ExtractError {
    /// The file name carries none of the supported extensions.
    UnsupportedArchiveType { path: Vec<u8> },
    /// An entry of the archive names a path outside the output directory.
    UnsafeArchivePath { format: ArchiveFormat, path: Vec<u8>, source: UnsafePathError },
}

/// Whether `s` ends with `suffix`.
pub open spec fn has_suffix(s: Seq<u8>, suffix: Seq<u8>) -> bool {
    suffix.len() <= s.len() && s.subrange(s.len() - suffix.len(), s.len() as int) == suffix
}

/// `.zip`
pub open spec fn ext_zip() -> Seq<u8> { seq![46u8, 122u8, 105u8, 112u8] }
/// `.tar`
pub open spec fn ext_tar() -> Seq<u8> { seq![46u8, 116u8, 97u8, 114u8] }
/// `.tar.gz`
pub open spec fn ext_tar_gz() -> Seq<u8> { seq![46u8, 116u8, 97u8, 114u8, 46u8, 103u8, 122u8] }
/// `.tgz`
pub open spec fn ext_tgz() -> Seq<u8> { seq![46u8, 116u8, 103u8, 122u8] }
/// `.tar.xz`
pub open spec fn ext_tar_xz() -> Seq<u8> { seq![46u8, 116u8, 97u8, 114u8, 46u8, 120u8, 122u8] }
/// `.txz`
pub open spec fn ext_txz() -> Seq<u8> { seq![46u8, 116u8, 120u8, 122u8] }
/// `.tar.bz2`
pub open spec fn ext_tar_bz2() -> Seq<u8> { seq![46u8, 116u8, 97u8, 114u8, 46u8, 98u8, 122u8, 50u8] }
/// `.tbz2`
pub open spec fn ext_tbz2() -> Seq<u8> { seq![46u8, 116u8, 98u8, 122u8, 50u8] }
/// `.tar.zst`
pub open spec fn ext_tar_zst() -> Seq<u8> { seq![46u8, 116u8, 97u8, 114u8, 46u8, 122u8, 115u8, 116u8] }
/// `.tzst`
pub open spec fn ext_tzst() -> Seq<u8> { seq![46u8, 116u8, 122u8, 115u8, 116u8] }
/// `.7z`
pub open spec fn ext_7z() -> Seq<u8> { seq![46u8, 55u8, 122u8] }
/// `.rar`
pub open spec fn ext_rar() -> Seq<u8> { seq![46u8, 114u8, 97u8, 114u8] }

/// The archive type that a (lower-case) file name announces: the first of the
/// extension checks below that matches, or none.
pub open spec fn spec_archive_type_for_name(name: Seq<u8>) -> Option<ArchiveType> {
    if has_suffix(name, ext_zip()) {
        Some(ArchiveType::Zip)
    } else if has_suffix(name, ext_tar()) {
        Some(ArchiveType::Tar)
    } else if has_suffix(name, ext_tar_gz()) || has_suffix(name, ext_tgz()) {
        Some(ArchiveType::TarGz)
    } else if has_suffix(name, ext_tar_xz()) || has_suffix(name, ext_txz()) {
        Some(ArchiveType::TarXz)
    } else if has_suffix(name, ext_tar_bz2()) || has_suffix(name, ext_tbz2()) {
        Some(ArchiveType::TarBz2)
    } else if has_suffix(name, ext_tar_zst()) || has_suffix(name, ext_tzst()) {
        Some(ArchiveType::TarZst)
    } else if has_suffix(name, ext_7z()) {
        Some(ArchiveType::SevenZip)
    } else if has_suffix(name, ext_rar()) {
        Some(ArchiveType::Rar)
    } else {
        None
    }
}

/// Whether `s` ends with `suffix`.
fn ends_with(s: &[u8], suffix: &[u8]) -> (r: bool)
    ensures
        r == has_suffix(s@, suffix@),
{
    if suffix.len() > s.len() {
        return false;
    }
    let off = s.len() - suffix.len();
    let mut i: usize = 0;
    while i < suffix.len()
        invariant
            off + suffix.len() == s.len(),
            i <= suffix.len(),
            forall|j: int| 0 <= j < i ==> s@[off + j] == suffix@[j],
        decreases suffix.len() - i,
    {
        if s[off + i] != suffix[i] {
            assert(s@.subrange(off as int, s.len() as int)[i as int] != suffix@[i as int]);
            return false;
        }
        i += 1;
    }
    assert(s@.subrange(off as int, s.len() as int) =~= suffix@);
    true
}

/// The archive type announced by the extension of a lower-case file name.
pub fn archive_type_for_name(name: &[u8]) -> (r: Option<ArchiveType>)
    ensures
        r == spec_archive_type_for_name(name@),
{
    if ends_with(name, &[46u8, 122u8, 105u8, 112u8]) {
        Some(ArchiveType::Zip)
    } else if ends_with(name, &[46u8, 116u8, 97u8, 114u8]) {
        Some(ArchiveType::Tar)
    } else if ends_with(name, &[46u8, 116u8, 97u8, 114u8, 46u8, 103u8, 122u8])
        || ends_with(name, &[46u8, 116u8, 103u8, 122u8]) {
        Some(ArchiveType::TarGz)
    } else if ends_with(name, &[46u8, 116u8, 97u8, 114u8, 46u8, 120u8, 122u8])
        || ends_with(name, &[46u8, 116u8, 120u8, 122u8]) {
        Some(ArchiveType::TarXz)
    } else if ends_with(name, &[46u8, 116u8, 97u8, 114u8, 46u8, 98u8, 122u8, 50u8])
        || ends_with(name, &[46u8, 116u8, 98u8, 122u8, 50u8]) {
        Some(ArchiveType::TarBz2)
    } else if ends_with(name, &[46u8, 116u8, 97u8, 114u8, 46u8, 122u8, 115u8, 116u8])
        || ends_with(name, &[46u8, 116u8, 122u8, 115u8, 116u8]) {
        Some(ArchiveType::TarZst)
    } else if ends_with(name, &[46u8, 55u8, 122u8]) {
        Some(ArchiveType::SevenZip)
    } else if ends_with(name, &[46u8, 114u8, 97u8, 114u8]) {
        Some(ArchiveType::Rar)
    } else {
        None
    }
}


/// What `str::to_lowercase` gives for a string: its lower-case equivalent
/// under the Unicode `Lowercase` property.
pub uninterp spec fn lowercase(s: Seq<char>) -> Seq<char>;

/// Calls `std::str::from_utf8`. Claims, as its documentation says, that the
/// bytes are accepted exactly when they are valid UTF-8, and that the string
/// handed back is made of the same bytes.
#[verifier::external_body]
fn str_from_utf8(bytes: &[u8]) -> (r: Option<&str>)
    ensures
        r is Some <==> valid_utf8(bytes@),
        r matches Some(s) ==> encode_utf8(s@) == bytes@,
{
    std::str::from_utf8(bytes).ok()
}

/// Calls `str::to_lowercase`. Claims only that the result is the named
/// lower-case form of the argument; what that form is, is left unsaid.
#[verifier::external_body]
fn to_lowercase(s: &str) -> (r: String)
    ensures
        r@ == lowercase(s@),
{
    s.to_lowercase()
}

/// The file name of a path in lower case, as UTF-8 bytes; empty when the path
/// has no file name or the name is not UTF-8.
pub open spec fn lowered_file_name(path: Seq<u8>) -> Seq<u8> {
    match spec_file_name(path) {
        Some(n) => if valid_utf8(n) {
            encode_utf8(lowercase(decode_utf8(n)))
        } else {
            Seq::empty()
        },
        None => Seq::empty(),
    }
}

/// The archive type that a path announces by the extension of its file name,
/// compared without regard to case.
pub open spec fn spec_detect_archive_type(path: Seq<u8>) -> Option<ArchiveType> {
    spec_archive_type_for_name(lowered_file_name(path))
}

/// The lower-cased file name of a path.
fn lowered_name(path: &[u8]) -> (r: Vec<u8>)
    ensures
        r@ == lowered_file_name(path@),
{
    match file_name(path) {
        Some(n) => match str_from_utf8(n.as_slice()) {
            Some(s) => {
                proof {
                    encode_utf8_decode_utf8(s@);
                }
                let lower = to_lowercase(s);
                copy_bytes(lower.as_str().as_bytes())
            },
            None => Vec::new(),
        },
        None => Vec::new(),
    }
}

/// Detects the archive type of a path from the extension of its file name,
/// ignoring case; `UnsupportedArchiveType` when no known extension matches.
pub fn detect_archive_type(path: &[u8]) -> (r: Result<ArchiveType, ExtractError>)
    ensures
        match r {
            Ok(t) => spec_detect_archive_type(path@) == Some(t),
            Err(e) => spec_detect_archive_type(path@) is None && (e matches ExtractError::UnsupportedArchiveType { path: p } && p@ == path@),
        },
{
    let lower = lowered_name(path);
    match archive_type_for_name(lower.as_slice()) {
        Some(t) => Ok(t),
        None => Err(ExtractError::UnsupportedArchiveType { path: copy_bytes(path) }),
    }
}

/// Whether a path is an archive that can be extracted: it exists (as the
/// caller found) and its file name has a supported extension.
pub fn is_archive(path: &[u8], exists: bool) -> (r: bool)
    ensures
        r == (exists && spec_detect_archive_type(path@) is Some),
{
    exists && detect_archive_type(path).is_ok()
}


/// What to do with one entry of an archive.
#[derive(Debug, Clone, PartialEq, Eq)]
pub enum EntryAction {
    /// Create the directory (with its missing ancestors), then set its
    /// permission bits when they are given.
    CreateDir { path: Vec<u8>, permissions: Option<u32> },
    /// Create `parent` (with its ancestors) when there is one, then write the
    /// entry's contents to `path` and set its permission bits.
    WriteFile { path: Vec<u8>, parent: Option<Vec<u8>>, permissions: u32 },
    /// Leave the entry out.
    Skip,
}

/// The mathematical form of an `EntryAction`.
pub enum PlannedAction {
    CreateDir { path: Seq<u8>, permissions: Option<u32> },
    WriteFile { path: Seq<u8>, parent: Option<Seq<u8>>, permissions: u32 },
    Skip,
}

impl View for EntryAction {
    type V = PlannedAction;

    open spec fn view(&self) -> PlannedAction {
        match self {
            EntryAction::CreateDir { path, permissions } => PlannedAction::CreateDir {
                path: path@,
                permissions: *permissions,
            },
            EntryAction::WriteFile { path, parent, permissions } => PlannedAction::WriteFile {
                path: path@,
                parent: match parent {
                    Some(q) => Some(q@),
                    None => None,
                },
                permissions: *permissions,
            },
            EntryAction::Skip => PlannedAction::Skip,
        }
    }
}

/// The mode a file gets when the archive records none: `0o644`.
pub open spec fn mode_or_default(mode: Option<u32>) -> u32 {
    match mode {
        Some(m) => m,
        None => 0o644u32,
    }
}

/// Writing a file at `p`: its parent directory is created first.
pub open spec fn write_file_plan(p: Seq<u8>, mode: Option<u32>) -> PlannedAction {
    PlannedAction::WriteFile {
        path: p,
        parent: spec_parent(p),
        permissions: mode_or_default(mode) & 0o777u32,
    }
}

/// The refusal of an unsafe entry path.
pub open spec fn is_unsafe_path_error(
    e: ExtractError,
    format: ArchiveFormat,
    entry: Seq<u8>,
    source: UnsafePathError,
) -> bool {
    e matches ExtractError::UnsafeArchivePath { format: f, path: p, source: s } && f == format
        && p@ == entry && s == source
}

/// What to do with a ZIP entry accepted at `p`: a directory entry is created,
/// a regular file is written with its recorded mode (or `0o644`), anything else
/// is skipped.
pub open spec fn spec_zip_entry_action(
    p: Seq<u8>,
    is_dir: bool,
    is_file: bool,
    unix_mode: Option<u32>,
) -> PlannedAction {
    if is_dir {
        PlannedAction::CreateDir { path: p, permissions: None }
    } else if !is_file {
        PlannedAction::Skip
    } else {
        write_file_plan(p, unix_mode)
    }
}

/// The file to write at `p`.
fn write_file_action(p: Vec<u8>, mode: Option<u32>) -> (r: EntryAction)
    ensures
        r@ == write_file_plan(p@, mode),
{
    let m = match mode {
        Some(m) => m,
        None => 0o644u32,
    };
    let par = parent(p.as_slice());
    EntryAction::WriteFile { path: p, parent: par, permissions: permission_bits(m) }
}

/// Decides what to do with one ZIP entry, given its name, whether the archive
/// marks it as a directory or as a regular file, and its Unix mode if any.
pub fn plan_zip_entry(
    out: &[u8],
    name: &[u8],
    is_dir: bool,
    is_file: bool,
    unix_mode: Option<u32>,
) -> (r: Result<EntryAction, ExtractError>)
    ensures
        match spec_safe_join(out@, name@) {
            Ok(p) => r matches Ok(a) && a@ == spec_zip_entry_action(p, is_dir, is_file, unix_mode),
            Err(e) => r matches Err(err) && is_unsafe_path_error(err, ArchiveFormat::Zip, name@, e),
        },
{
    match safe_join(out, name) {
        Err(source) => Err(ExtractError::UnsafeArchivePath {
            format: ArchiveFormat::Zip,
            path: copy_bytes(name),
            source,
        }),
        Ok(p) => {
            if is_dir {
                Ok(EntryAction::CreateDir { path: p, permissions: None })
            } else if !is_file {
                Ok(EntryAction::Skip)
            } else {
                Ok(write_file_action(p, unix_mode))
            }
        },
    }
}

/// The kinds of TAR entries that extraction tells apart.
#[derive(Debug, Clone, Copy, PartialEq, Eq, Structural)]
pub enum TarEntryKind {
    Directory,
    Regular,
    Other,
}

/// What to do with a TAR entry accepted at `p`: a directory is created and
/// given the entry's mode, a regular file is written with it, anything else is
/// skipped; the mode is `0o644` where the header holds none that can be read.
pub open spec fn spec_tar_entry_action(p: Seq<u8>, kind: TarEntryKind, mode: Option<u32>) -> PlannedAction {
    match kind {
        TarEntryKind::Directory => PlannedAction::CreateDir {
            path: p,
            permissions: Some(mode_or_default(mode) & 0o777u32),
        },
        TarEntryKind::Regular => write_file_plan(p, mode),
        TarEntryKind::Other => PlannedAction::Skip,
    }
}

/// Decides what to do with one TAR entry, given its path, its kind and the
/// mode its header holds, if that can be read.
pub fn plan_tar_entry(
    out: &[u8],
    entry: &[u8],
    kind: TarEntryKind,
    mode: Option<u32>,
) -> (r: Result<EntryAction, ExtractError>)
    ensures
        match spec_safe_join(out@, entry@) {
            Ok(p) => r matches Ok(a) && a@ == spec_tar_entry_action(p, kind, mode),
            Err(e) => r matches Err(err) && is_unsafe_path_error(err, ArchiveFormat::Tar, entry@, e),
        },
{
    match safe_join(out, entry) {
        Err(source) => Err(ExtractError::UnsafeArchivePath {
            format: ArchiveFormat::Tar,
            path: copy_bytes(entry),
            source,
        }),
        Ok(p) => match kind {
            TarEntryKind::Directory => {
                let m = match mode {
                    Some(m) => m,
                    None => 0o644u32,
                };
                Ok(EntryAction::CreateDir { path: p, permissions: Some(permission_bits(m)) })
            },
            TarEntryKind::Regular => Ok(write_file_action(p, mode)),
            TarEntryKind::Other => Ok(EntryAction::Skip),
        },
    }
}


/// Every path that an accepted entry's action touches lies under `out`: the
/// path created or written has the components of `out` followed by exactly
/// those of the entry, none of them `..`, and a parent directory to create is
/// a prefix of the file's path.
pub open spec fn stays_under(out: Seq<u8>, entry: Seq<u8>, a: PlannedAction) -> bool {
    match a {
        PlannedAction::CreateDir { path, .. } => parts(path) == parts(out) + parts(entry)
            && !parts(entry).contains(dotdot()),
        PlannedAction::WriteFile { path, parent, .. } => parts(path) == parts(out) + parts(entry)
            && !parts(entry).contains(dotdot()) && (parent matches Some(q) ==> q == path.take(
            q.len() as int,
        )),
        PlannedAction::Skip => true,
    }
}

/// Whatever a ZIP or TAR entry is planned to become stays under the output
/// directory; entries that would leave it are refused before anything is planned.
pub proof fn law_entry_actions_stay_under_out(
    out: Seq<u8>,
    entry: Seq<u8>,
    is_dir: bool,
    is_file: bool,
    unix_mode: Option<u32>,
    kind: TarEntryKind,
    mode: Option<u32>,
)
    requires
        spec_safe_join(out, entry) is Ok,
    ensures
        stays_under(out, entry, spec_zip_entry_action(spec_safe_join(out, entry)->Ok_0, is_dir, is_file, unix_mode)),
        stays_under(out, entry, spec_tar_entry_action(spec_safe_join(out, entry)->Ok_0, kind, mode)),
{
    law_safe_join_stays_under_base(out, entry);
    law_parent_is_prefix(spec_safe_join(out, entry)->Ok_0);
}

/// Where an archive lives does not change its type: a file name in any
/// directory is detected as the bare file name is.
pub proof fn law_detect_ignores_directory(dir: Seq<u8>, name: Seq<u8>)
    requires
        name.len() > 0,
        no_sep(name),
        !is_trivial(name),
        name != dotdot(),
    ensures
        spec_detect_archive_type(spec_join(dir, name)) == spec_detect_archive_type(name),
{
    assert(name[0] != sep());
    lemma_parts_join(dir, name);
    lemma_parts_segment(name);
    assert((parts(dir) + seq![name]).last() == name);
}


/// The low nine bits of a mode are its remainder by 512.
proof fn lemma_mask_is_mod(m: u32)
    ensures
        m & 0o777u32 == m % 512,
{
    assert(m & 0o777u32 == m % 512) by (bit_vector);
}

/// The parent planned for a file accepted at `out` joined with `entry` holds
/// the components of `out` and all of `entry`'s but the last.
proof fn lemma_planned_parent(out: Seq<u8>, entry: Seq<u8>)
    requires
        spec_safe_join(out, entry) is Ok,
    ensures
        spec_parent(spec_safe_join(out, entry)->Ok_0) is Some,
        parts(spec_parent(spec_safe_join(out, entry)->Ok_0)->Some_0) == parts(out) + parts(
            entry,
        ).drop_last(),
{
    law_safe_join_stays_under_base(out, entry);
    let p = spec_safe_join(out, entry)->Ok_0;
    law_parent_drops_last_component(p);
    assert((parts(out) + parts(entry)).drop_last() =~= parts(out) + parts(entry).drop_last());
}

/// A ZIP entry accepted at `p`: a directory entry is created with no mode set;
/// a regular file is written at `p` with exactly the permission bits of its
/// recorded Unix mode (`0o644` when none is recorded), after its parent, which
/// holds every component of the entry but the last, is created; any other
/// entry is skipped.
pub proof fn law_zip_entry_plan(
    out: Seq<u8>,
    name: Seq<u8>,
    is_dir: bool,
    is_file: bool,
    unix_mode: Option<u32>,
)
    requires
        spec_safe_join(out, name) is Ok,
    ensures
        ({
            let p = spec_safe_join(out, name)->Ok_0;
            let a = spec_zip_entry_action(p, is_dir, is_file, unix_mode);
            &&& is_dir ==> a == PlannedAction::CreateDir { path: p, permissions: None }
            &&& !is_dir && !is_file ==> a == PlannedAction::Skip
            &&& !is_dir && is_file ==> (a matches PlannedAction::WriteFile { path, parent, permissions }
                && path == p && permissions == (match unix_mode {
                Some(m) => m % 512,
                None => 420u32,
            }) && (parent matches Some(q) && parts(q) == parts(out) + parts(name).drop_last()))
        }),
{
    lemma_planned_parent(out, name);
    lemma_mask_is_mod(0o644u32);
    if let Some(m) = unix_mode {
        lemma_mask_is_mod(m);
    }
}

/// A TAR entry accepted at `p`: a directory is created and given exactly the
/// permission bits of the header's mode; a regular file is written at `p` with
/// exactly those bits, after its parent, which holds every component of the
/// entry but the last, is created; `0o644` stands in only when the header's
/// mode cannot be read; any other entry is skipped.
pub proof fn law_tar_entry_plan(out: Seq<u8>, entry: Seq<u8>, kind: TarEntryKind, mode: Option<u32>)
    requires
        spec_safe_join(out, entry) is Ok,
    ensures
        ({
            let p = spec_safe_join(out, entry)->Ok_0;
            let a = spec_tar_entry_action(p, kind, mode);
            let bits = match mode {
                Some(m) => m % 512,
                None => 420u32,
            };
            &&& kind == TarEntryKind::Directory ==> a == PlannedAction::CreateDir {
                path: p,
                permissions: Some(bits),
            }
            &&& kind == TarEntryKind::Regular ==> (a matches PlannedAction::WriteFile {
                path,
                parent,
                permissions,
            } && path == p && permissions == bits && (parent matches Some(q) && parts(q) == parts(
                out,
            ) + parts(entry).drop_last()))
            &&& kind == TarEntryKind::Other ==> a == PlannedAction::Skip
        }),
{
    lemma_planned_parent(out, entry);
    lemma_mask_is_mod(0o644u32);
    if let Some(m) = mode {
        lemma_mask_is_mod(m);
    }
}

/// `s` ends with `suffix` exactly when `s` is some bytes followed by `suffix`:
/// whatever comes before the suffix, dots included, does not matter.
pub proof fn law_has_suffix(x: Seq<u8>, suffix: Seq<u8>, s: Seq<u8>)
    ensures
        has_suffix(x + suffix, suffix),
        has_suffix(s, suffix) ==> s == s.take(s.len() - suffix.len()) + suffix,
{
    assert((x + suffix).subrange(x.len() as int, (x + suffix).len() as int) =~= suffix);
    if has_suffix(s, suffix) {
        assert(s =~= s.take(s.len() - suffix.len()) + s.subrange(
            s.len() - suffix.len(),
            s.len() as int,
        ));
    }
}

/// A name ending in `e` does not end in `f` when the two differ `i` bytes from the end.
proof fn lemma_suffix_excludes(x: Seq<u8>, e: Seq<u8>, f: Seq<u8>, i: int)
    requires
        0 <= i < e.len(),
        i < f.len(),
        e[e.len() - 1 - i] != f[f.len() - 1 - i],
    ensures
        !has_suffix(x + e, f),
{
    let s = x + e;
    assert(s[s.len() - 1 - i] == e[e.len() - 1 - i]);
    if has_suffix(s, f) {
        assert(s.subrange(s.len() - f.len(), s.len() as int)[f.len() - 1 - i] == s[s.len() - 1 - i]);
    }
}

/// Each supported extension gives its archive type whatever precedes it in the
/// name, dots and other extensions included: `.zip`, `.tar`, `.tar.gz`, `.tgz`,
/// `.tar.xz`, `.txz`, `.tar.bz2`, `.tbz2`, `.tar.zst`, `.tzst`, `.7z`, `.rar`.
pub proof fn law_archive_type_by_extension(x: Seq<u8>)
    ensures
        spec_archive_type_for_name(x + seq![46u8, 122u8, 105u8, 112u8]) == Some(ArchiveType::Zip),
        spec_archive_type_for_name(x + seq![46u8, 116u8, 97u8, 114u8]) == Some(ArchiveType::Tar),
        spec_archive_type_for_name(x + seq![46u8, 116u8, 97u8, 114u8, 46u8, 103u8, 122u8]) == Some(
            ArchiveType::TarGz,
        ),
        spec_archive_type_for_name(x + seq![46u8, 116u8, 103u8, 122u8]) == Some(ArchiveType::TarGz),
        spec_archive_type_for_name(x + seq![46u8, 116u8, 97u8, 114u8, 46u8, 120u8, 122u8]) == Some(
            ArchiveType::TarXz,
        ),
        spec_archive_type_for_name(x + seq![46u8, 116u8, 120u8, 122u8]) == Some(ArchiveType::TarXz),
        spec_archive_type_for_name(x + seq![46u8, 116u8, 97u8, 114u8, 46u8, 98u8, 122u8, 50u8])
            == Some(ArchiveType::TarBz2),
        spec_archive_type_for_name(x + seq![46u8, 116u8, 98u8, 122u8, 50u8]) == Some(
            ArchiveType::TarBz2,
        ),
        spec_archive_type_for_name(x + seq![46u8, 116u8, 97u8, 114u8, 46u8, 122u8, 115u8, 116u8])
            == Some(ArchiveType::TarZst),
        spec_archive_type_for_name(x + seq![46u8, 116u8, 122u8, 115u8, 116u8]) == Some(
            ArchiveType::TarZst,
        ),
        spec_archive_type_for_name(x + seq![46u8, 55u8, 122u8]) == Some(ArchiveType::SevenZip),
        spec_archive_type_for_name(x + seq![46u8, 114u8, 97u8, 114u8]) == Some(ArchiveType::Rar),
{
    let zip = ext_zip();
    let tar = ext_tar();
    let tar_gz = ext_tar_gz();
    let tgz = ext_tgz();
    let tar_xz = ext_tar_xz();
    let txz = ext_txz();
    let tar_bz2 = ext_tar_bz2();
    let tbz2 = ext_tbz2();
    let tar_zst = ext_tar_zst();
    let tzst = ext_tzst();
    let sz = ext_7z();
    let rar = ext_rar();
    let empty = Seq::<u8>::empty();
    law_has_suffix(x, zip, empty);
    law_has_suffix(x, tar, empty);
    lemma_suffix_excludes(x, tar, zip, 0);
    law_has_suffix(x, tar_gz, empty);
    lemma_suffix_excludes(x, tar_gz, zip, 0);
    lemma_suffix_excludes(x, tar_gz, tar, 0);
    law_has_suffix(x, tgz, empty);
    lemma_suffix_excludes(x, tgz, zip, 0);
    lemma_suffix_excludes(x, tgz, tar, 0);
    law_has_suffix(x, tar_xz, empty);
    law_has_suffix(x, txz, empty);
    lemma_suffix_excludes(x, tar_xz, zip, 0);
    lemma_suffix_excludes(x, tar_xz, tar, 0);
    lemma_suffix_excludes(x, tar_xz, tar_gz, 1);
    lemma_suffix_excludes(x, tar_xz, tgz, 1);
    lemma_suffix_excludes(x, txz, zip, 0);
    lemma_suffix_excludes(x, txz, tar, 0);
    lemma_suffix_excludes(x, txz, tar_gz, 1);
    lemma_suffix_excludes(x, txz, tgz, 1);
    law_has_suffix(x, tar_bz2, empty);
    law_has_suffix(x, tbz2, empty);
    lemma_suffix_excludes(x, tar_bz2, zip, 0);
    lemma_suffix_excludes(x, tar_bz2, tar, 0);
    lemma_suffix_excludes(x, tar_bz2, tar_gz, 0);
    lemma_suffix_excludes(x, tar_bz2, tgz, 0);
    lemma_suffix_excludes(x, tar_bz2, tar_xz, 0);
    lemma_suffix_excludes(x, tar_bz2, txz, 0);
    lemma_suffix_excludes(x, tbz2, zip, 0);
    lemma_suffix_excludes(x, tbz2, tar, 0);
    lemma_suffix_excludes(x, tbz2, tar_gz, 0);
    lemma_suffix_excludes(x, tbz2, tgz, 0);
    lemma_suffix_excludes(x, tbz2, tar_xz, 0);
    lemma_suffix_excludes(x, tbz2, txz, 0);
    law_has_suffix(x, tar_zst, empty);
    law_has_suffix(x, tzst, empty);
    lemma_suffix_excludes(x, tar_zst, zip, 0);
    lemma_suffix_excludes(x, tar_zst, tar, 0);
    lemma_suffix_excludes(x, tar_zst, tar_gz, 0);
    lemma_suffix_excludes(x, tar_zst, tgz, 0);
    lemma_suffix_excludes(x, tar_zst, tar_xz, 0);
    lemma_suffix_excludes(x, tar_zst, txz, 0);
    lemma_suffix_excludes(x, tar_zst, tar_bz2, 0);
    lemma_suffix_excludes(x, tar_zst, tbz2, 0);
    lemma_suffix_excludes(x, tzst, zip, 0);
    lemma_suffix_excludes(x, tzst, tar, 0);
    lemma_suffix_excludes(x, tzst, tar_gz, 0);
    lemma_suffix_excludes(x, tzst, tgz, 0);
    lemma_suffix_excludes(x, tzst, tar_xz, 0);
    lemma_suffix_excludes(x, tzst, txz, 0);
    lemma_suffix_excludes(x, tzst, tar_bz2, 0);
    lemma_suffix_excludes(x, tzst, tbz2, 0);
    law_has_suffix(x, sz, empty);
    lemma_suffix_excludes(x, sz, zip, 0);
    lemma_suffix_excludes(x, sz, tar, 0);
    lemma_suffix_excludes(x, sz, tar_gz, 1);
    lemma_suffix_excludes(x, sz, tgz, 1);
    lemma_suffix_excludes(x, sz, tar_xz, 1);
    lemma_suffix_excludes(x, sz, txz, 1);
    lemma_suffix_excludes(x, sz, tar_bz2, 0);
    lemma_suffix_excludes(x, sz, tbz2, 0);
    lemma_suffix_excludes(x, sz, tar_zst, 0);
    lemma_suffix_excludes(x, sz, tzst, 0);
    law_has_suffix(x, rar, empty);
    lemma_suffix_excludes(x, rar, zip, 0);
    lemma_suffix_excludes(x, rar, tar, 2);
    lemma_suffix_excludes(x, rar, tar_gz, 0);
    lemma_suffix_excludes(x, rar, tgz, 0);
    lemma_suffix_excludes(x, rar, tar_xz, 0);
    lemma_suffix_excludes(x, rar, txz, 0);
    lemma_suffix_excludes(x, rar, tar_bz2, 0);
    lemma_suffix_excludes(x, rar, tbz2, 0);
    lemma_suffix_excludes(x, rar, tar_zst, 0);
    lemma_suffix_excludes(x, rar, tzst, 0);
    lemma_suffix_excludes(x, rar, sz, 0);
}

/// Detection reads the file name alone: two paths with the same file name are
/// detected alike, and a path with no file name, or one that is not UTF-8, is
/// not an archive.
pub proof fn law_detect_reads_file_name(p1: Seq<u8>, p2: Seq<u8>)
    ensures
        spec_file_name(p1) == spec_file_name(p2) ==> spec_detect_archive_type(p1)
            == spec_detect_archive_type(p2),
        spec_file_name(p1) is None ==> spec_detect_archive_type(p1) is None,
        (spec_file_name(p1) matches Some(n) && !valid_utf8(n)) ==> spec_detect_archive_type(p1) is None,
        (spec_file_name(p1) matches Some(n) && valid_utf8(n)) ==> spec_detect_archive_type(p1)
            == spec_archive_type_for_name(encode_utf8(lowercase(decode_utf8(spec_file_name(p1)->Some_0)))),
{
    assert(spec_archive_type_for_name(Seq::<u8>::empty()) is None);
}


/// A name that ends in none of the supported extensions is no archive.
pub proof fn law_unknown_extension(n: Seq<u8>)
    requires
        !has_suffix(n, seq![46u8, 122u8, 105u8, 112u8]),
        !has_suffix(n, seq![46u8, 116u8, 97u8, 114u8]),
        !has_suffix(n, seq![46u8, 116u8, 97u8, 114u8, 46u8, 103u8, 122u8]),
        !has_suffix(n, seq![46u8, 116u8, 103u8, 122u8]),
        !has_suffix(n, seq![46u8, 116u8, 97u8, 114u8, 46u8, 120u8, 122u8]),
        !has_suffix(n, seq![46u8, 116u8, 120u8, 122u8]),
        !has_suffix(n, seq![46u8, 116u8, 97u8, 114u8, 46u8, 98u8, 122u8, 50u8]),
        !has_suffix(n, seq![46u8, 116u8, 98u8, 122u8, 50u8]),
        !has_suffix(n, seq![46u8, 116u8, 97u8, 114u8, 46u8, 122u8, 115u8, 116u8]),
        !has_suffix(n, seq![46u8, 116u8, 122u8, 115u8, 116u8]),
        !has_suffix(n, seq![46u8, 55u8, 122u8]),
        !has_suffix(n, seq![46u8, 114u8, 97u8, 114u8]),
    ensures
        spec_archive_type_for_name(n) is None,
{
}

/// The refusal of an unsafe entry path carries exactly the format, the entry
/// path as given and the reason.
pub proof fn law_unsafe_path_error_fields(
    e: ExtractError,
    format: ArchiveFormat,
    entry: Seq<u8>,
    source: UnsafePathError,
)
    requires
        is_unsafe_path_error(e, format, entry, source),
    ensures
        e matches ExtractError::UnsafeArchivePath { format: f, path: p, source: s },
        e->format == format,
        e->UnsafeArchivePath_path@ == entry,
        e->source == source,
{
}

} // verus!
