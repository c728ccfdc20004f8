use std::path::{Component, Path, PathBuf};

use sax::fs_utils::{
    permission_bits, removal_for, safe_join, single_child_dir_or_self, DirEntryInfo, PathKind,
    Removal, UnsafePathError,
};

#[test]
fn fs_utils_safe_join_should_return_unsafe_path_error_when_empty_path_given() {
    // Arrange
    let base = b"/tmp";
    let empty = b"";

    // Act
    let actual = safe_join(base, empty);

    // Assert
    assert!(actual.is_err());
    assert!(matches!(actual.err().unwrap(), UnsafePathError::Empty))
}

#[test]
fn fs_utils_safe_join_should_return_unsafe_path_error_when_absolute_path_given() {
    // Arrange
    let base = b"/tmp";
    let empty = b"/absolute";

    // Act
    let actual = safe_join(base, empty);

    // Assert
    assert!(actual.is_err());
    assert!(matches!(actual.err().unwrap(), UnsafePathError::Absolute))
}

#[test]
fn fs_utils_safe_join_should_return_unsafe_path_error_when_nested_traversel_path_given() {
    // Arrange
    let base = b"/tmp";
    let empty = b"nested/../../escape";

    // Act
    let actual = safe_join(base, empty);

    // Assert
    assert!(actual.is_err());
    assert!(matches!(actual.err().unwrap(), UnsafePathError::Traversal));
}

#[test]
fn fs_utils_safe_join_should_join_two_paths() {
    // Arrange
    let base = b"/tmp";
    let empty = b"foo/bar";

    // Act
    let actual = safe_join(base, empty).unwrap();

    // Assert
    assert_eq!(actual, b"/tmp/foo/bar".to_vec())
}

/// The joining rule written with `std::path`, to compare against.
fn std_safe_join(base: &Path, rel: &Path) -> Result<PathBuf, UnsafePathError> {
    if rel.as_os_str().is_empty() {
        return Err(UnsafePathError::Empty);
    }
    if rel.is_absolute() {
        return Err(UnsafePathError::Absolute);
    }
    let mut clean = PathBuf::new();
    for component in rel.components() {
        match component {
            Component::Normal(part) => clean.push(part),
            Component::CurDir => {}
            Component::ParentDir => return Err(UnsafePathError::Traversal),
            Component::RootDir | Component::Prefix(_) => return Err(UnsafePathError::Absolute),
        }
    }
    if clean.as_os_str().is_empty() {
        return Err(UnsafePathError::Empty);
    }
    Ok(base.join(clean))
}

#[test]
fn safe_join_matches_std_paths_on_all_short_inputs() {
    let mut rels = vec![String::new()];
    let mut frontier = vec![String::new()];
    for _ in 0..6 {
        let mut next = Vec::new();
        for s in &frontier {
            for c in ['a', '.', '/'] {
                let mut t = s.clone();
                t.push(c);
                next.push(t);
            }
        }
        rels.extend(next.iter().cloned());
        frontier = next;
    }
    for base in ["", "/", "/tmp", "/tmp/", "out/./"] {
        for rel in &rels {
            let expected = std_safe_join(Path::new(base), Path::new(rel))
                .map(|p| p.to_str().unwrap().as_bytes().to_vec());
            assert_eq!(safe_join(base.as_bytes(), rel.as_bytes()), expected, "{base:?} {rel:?}");
        }
    }
}

#[test]
fn safe_join_drops_current_dir_segments_and_repeated_separators() {
    assert_eq!(safe_join(b"/out", b"./a//b/./c/"), Ok(b"/out/a/b/c".to_vec()));
    assert_eq!(safe_join(b"/out/", b"a"), Ok(b"/out/a".to_vec()));
    assert_eq!(safe_join(b"", b"a/b"), Ok(b"a/b".to_vec()));
}

#[test]
fn safe_join_refuses_paths_with_only_current_dir_segments() {
    assert_eq!(safe_join(b"/out", b"./././"), Err(UnsafePathError::Empty));
    assert_eq!(safe_join(b"/out", b"."), Err(UnsafePathError::Empty));
}

#[test]
fn safe_join_refuses_trailing_parent_segment() {
    assert_eq!(safe_join(b"/out", b"a/.."), Err(UnsafePathError::Traversal));
    assert_eq!(safe_join(b"/out", b"..a/b"), Ok(b"/out/..a/b".to_vec()));
}

#[test]
fn safe_join_of_cleaned_path_is_unchanged() {
    let first = safe_join(b"/out", b"./x//y/").unwrap();
    let again = safe_join(b"/out", b"x/y").unwrap();
    assert_eq!(first, again);
}

#[test]
fn permission_bits_should_mask_to_permission_bits() {
    assert_eq!(permission_bits(0o100755), 0o755);
    assert_eq!(permission_bits(0o644), 0o644);
    assert_eq!(permission_bits(0o7777), 0o777);
    assert_eq!(permission_bits(u32::MAX), 0o777);
}

#[test]
fn single_child_dir_or_self_returns_only_child_directory() {
    let entries = vec![DirEntryInfo { path: b"/x/package".to_vec(), is_dir: true }];
    assert_eq!(single_child_dir_or_self(b"/x", &entries), b"/x/package".to_vec());
}

#[test]
fn single_child_dir_or_self_returns_self_for_multiple_entries() {
    let entries = vec![
        DirEntryInfo { path: b"/x/package".to_vec(), is_dir: true },
        DirEntryInfo { path: b"/x/README.txt".to_vec(), is_dir: false },
    ];
    assert_eq!(single_child_dir_or_self(b"/x", &entries), b"/x".to_vec());
}

#[test]
fn single_child_dir_or_self_returns_self_for_single_file() {
    let entries = vec![DirEntryInfo { path: b"/x/README.txt".to_vec(), is_dir: false }];
    assert_eq!(single_child_dir_or_self(b"/x", &entries), b"/x".to_vec());
}

#[test]
fn single_child_dir_or_self_returns_self_for_empty_directory() {
    assert_eq!(single_child_dir_or_self(b"/x", &[]), b"/x".to_vec());
}

#[test]
fn removal_for_chooses_by_what_is_there() {
    assert_eq!(removal_for(None), Removal::Nothing);
    assert_eq!(
        removal_for(Some(PathKind { is_dir: true, is_symlink: false })),
        Removal::RemoveDirAll
    );
    assert_eq!(
        removal_for(Some(PathKind { is_dir: false, is_symlink: false })),
        Removal::RemoveFile
    );
    assert_eq!(
        removal_for(Some(PathKind { is_dir: false, is_symlink: true })),
        Removal::RemoveFile
    );
}

#[test]
fn safe_join_result_keeps_entry_file_name() {
    let joined = safe_join(b"/out/", b"./pkg//docs/readme.md").unwrap();
    assert_eq!(sax::path::file_name(&joined), Some(b"readme.md".to_vec()));
    assert!(joined.starts_with(b"/out/"));
}
