use sax::extract::{
    archive_type_for_name, detect_archive_type, is_archive, plan_tar_entry, plan_zip_entry,
    ArchiveFormat, ArchiveType, EntryAction, ExtractError, TarEntryKind,
};
use sax::fs_utils::{safe_join, UnsafePathError};

#[test]
fn detect_archive_type_should_assert_correct_archive_type_enum() {
    // Arrange
    let archive_types = [
        ("test.zip", ArchiveType::Zip),
        ("test.tar", ArchiveType::Tar),
        ("test.tar.gz", ArchiveType::TarGz),
        ("test.tgz", ArchiveType::TarGz),
        ("test.tar.xz", ArchiveType::TarXz),
        ("test.txz", ArchiveType::TarXz),
        ("test.tar.bz2", ArchiveType::TarBz2),
        ("test.tbz2", ArchiveType::TarBz2),
        ("test.tar.zst", ArchiveType::TarZst),
        ("test.tzst", ArchiveType::TarZst),
        ("test.7z", ArchiveType::SevenZip),
        ("test.rar", ArchiveType::Rar),
    ];

    // Assert
    for (name, expected) in archive_types {
        let actual = detect_archive_type(name.as_bytes()).unwrap();

        assert_eq!(actual, expected);
    }
}

#[test]
fn detect_archive_type_ignores_case_and_directories() {
    assert_eq!(detect_archive_type(b"/home/u/Backup.TAR.GZ"), Ok(ArchiveType::TarGz));
    assert_eq!(detect_archive_type(b"dir.zip/file.Rar"), Ok(ArchiveType::Rar));
    assert_eq!(detect_archive_type(b"a.ZIP/"), Ok(ArchiveType::Zip));
}

#[test]
fn detect_archive_type_refuses_unknown_names() {
    for name in [&b"foo"[..], b"foo.gz", b"archive.zip/..", b"", b"/", b"a.tar.gz.bak"] {
        match detect_archive_type(name) {
            Err(ExtractError::UnsupportedArchiveType { path }) => assert_eq!(path, name.to_vec()),
            other => panic!("expected UnsupportedArchiveType for {name:?}, got {other:?}"),
        }
    }
}

#[test]
fn detect_archive_type_refuses_names_that_are_not_utf8() {
    assert!(detect_archive_type(b"\xff\xfe.zip").is_err());
}

#[test]
fn archive_type_for_name_checks_extensions_in_order() {
    assert_eq!(archive_type_for_name(b"x.tar"), Some(ArchiveType::Tar));
    assert_eq!(archive_type_for_name(b"x.tar.zst"), Some(ArchiveType::TarZst));
    assert_eq!(archive_type_for_name(b".7z"), Some(ArchiveType::SevenZip));
    assert_eq!(archive_type_for_name(b"x.TAR"), None);
    assert_eq!(archive_type_for_name(b"7z"), None);
}

#[test]
fn is_archive_should_return_true_when_correct_archive_name_given() {
    assert!(is_archive(b"/tmp/dir/a.tar.gz", true));
}

#[test]
fn is_archive_should_return_false_when_incorrect_archive_name_given() {
    assert!(!is_archive(b"/tmp/dir/foo", true));
}

#[test]
fn is_archive_should_return_false_when_path_does_not_exist() {
    assert!(!is_archive(b"/tmp/doesnt-exist.zip", false));
}

#[test]
fn extract_safe_join_should_return_unsafe_path_error_when_empty_path_given() {
    // Arrange
    let base = b"/tmp";
    let empty = b"";

    // Act
    let actual = safe_join(base, empty);

    // Assert
    assert!(actual.is_err());
    assert!(matches!(actual.err().unwrap(), UnsafePathError::Empty))
}

#[test]
fn extract_safe_join_should_return_unsafe_path_error_when_absolute_path_given() {
    // Arrange
    let base = b"/tmp";
    let empty = b"/absolute";

    // Act
    let actual = safe_join(base, empty);

    // Assert
    assert!(actual.is_err());
    assert!(matches!(actual.err().unwrap(), UnsafePathError::Absolute))
}

#[test]
fn extract_safe_join_should_return_unsafe_path_error_when_nested_traversel_path_given() {
    // Arrange
    let base = b"/tmp";
    let empty = b"nested/../../escape";

    // Act
    let actual = safe_join(base, empty);

    // Assert
    assert!(actual.is_err());
    assert!(matches!(actual.err().unwrap(), UnsafePathError::Traversal));
}

#[test]
fn extract_safe_join_should_join_two_paths() {
    // Arrange
    let base = b"/tmp";
    let empty = b"foo/bar";

    // Act
    let actual = safe_join(base, empty).unwrap();

    // Assert
    assert_eq!(actual, b"/tmp/foo/bar".to_vec())
}

#[test]
fn plan_zip_entry_creates_directories() {
    assert_eq!(
        plan_zip_entry(b"/out", b"nested/", true, false, Some(0o40755)),
        Ok(EntryAction::CreateDir { path: b"/out/nested".to_vec(), permissions: None })
    );
}

#[test]
fn plan_zip_entry_writes_files_with_masked_mode() {
    assert_eq!(
        plan_zip_entry(b"/out", b"nested/inner.txt", false, true, Some(0o100600)),
        Ok(EntryAction::WriteFile {
            path: b"/out/nested/inner.txt".to_vec(),
            parent: Some(b"/out/nested".to_vec()),
            permissions: 0o600,
        })
    );
    assert_eq!(
        plan_zip_entry(b"/out", b"root.txt", false, true, None),
        Ok(EntryAction::WriteFile {
            path: b"/out/root.txt".to_vec(),
            parent: Some(b"/out".to_vec()),
            permissions: 0o644,
        })
    );
}

#[test]
fn plan_zip_entry_skips_other_entries() {
    assert_eq!(plan_zip_entry(b"/out", b"link", false, false, Some(0o120777)), Ok(EntryAction::Skip));
}

#[test]
fn plan_zip_entry_refuses_unsafe_names() {
    assert_eq!(
        plan_zip_entry(b"/out", b"../evil.txt", false, true, None),
        Err(ExtractError::UnsafeArchivePath {
            format: ArchiveFormat::Zip,
            path: b"../evil.txt".to_vec(),
            source: UnsafePathError::Traversal,
        })
    );
}

#[test]
fn plan_tar_entry_follows_entry_kind() {
    assert_eq!(
        plan_tar_entry(b"out", b"pkg/", TarEntryKind::Directory, Some(0o755)),
        Ok(EntryAction::CreateDir { path: b"out/pkg".to_vec(), permissions: Some(0o755) })
    );
    assert_eq!(
        plan_tar_entry(b"out", b"pkg/a.txt", TarEntryKind::Regular, None),
        Ok(EntryAction::WriteFile {
            path: b"out/pkg/a.txt".to_vec(),
            parent: Some(b"out/pkg".to_vec()),
            permissions: 0o644,
        })
    );
    assert_eq!(plan_tar_entry(b"out", b"pkg/l", TarEntryKind::Other, None), Ok(EntryAction::Skip));
}

#[test]
fn plan_tar_entry_refuses_unsafe_paths_of_any_kind() {
    assert_eq!(
        plan_tar_entry(b"out", b"/etc/passwd", TarEntryKind::Other, None),
        Err(ExtractError::UnsafeArchivePath {
            format: ArchiveFormat::Tar,
            path: b"/etc/passwd".to_vec(),
            source: UnsafePathError::Absolute,
        })
    );
}

#[test]
fn archive_format_labels() {
    assert_eq!(ArchiveFormat::Zip.label(), "ZIP");
    assert_eq!(ArchiveFormat::Tar.label(), "TAR");
}
