use std::path::{Component, Path};

use sax::path::{file_name, join, parent, path_parts};

/// Every string over `a`, `.` and `/` up to the given length.
fn all_paths(max_len: usize) -> Vec<String> {
    let mut out = vec![String::new()];
    let mut frontier = vec![String::new()];
    for _ in 0..max_len {
        let mut next = Vec::new();
        for s in &frontier {
            for c in ['a', '.', '/'] {
                let mut t = s.clone();
                t.push(c);
                next.push(t);
            }
        }
        out.extend(next.iter().cloned());
        frontier = next;
    }
    out
}

fn bytes(p: &Path) -> Vec<u8> {
    p.to_str().unwrap().as_bytes().to_vec()
}

#[test]
fn path_parts_match_std_components() {
    for p in all_paths(6) {
        let expected: Vec<Vec<u8>> = Path::new(&p)
            .components()
            .filter_map(|c| match c {
                Component::Normal(n) => Some(n.to_str().unwrap().as_bytes().to_vec()),
                Component::ParentDir => Some(b"..".to_vec()),
                _ => None,
            })
            .collect();
        assert_eq!(path_parts(p.as_bytes()), expected, "path {p:?}");
    }
}

#[test]
fn file_name_matches_std() {
    for p in all_paths(6) {
        let expected = Path::new(&p).file_name().map(|n| n.to_str().unwrap().as_bytes().to_vec());
        assert_eq!(file_name(p.as_bytes()), expected, "path {p:?}");
    }
}

#[test]
fn parent_matches_std() {
    for p in all_paths(7) {
        let expected = Path::new(&p).parent().map(bytes);
        assert_eq!(parent(p.as_bytes()), expected, "path {p:?}");
    }
}

#[test]
fn join_matches_std() {
    let paths = all_paths(3);
    for base in &paths {
        for rel in &paths {
            let expected = bytes(&Path::new(base).join(rel));
            assert_eq!(join(base.as_bytes(), rel.as_bytes()), expected, "{base:?} {rel:?}");
        }
    }
}

#[test]
fn parent_examples() {
    assert_eq!(parent(b"/tmp/foo/bar"), Some(b"/tmp/foo".to_vec()));
    assert_eq!(parent(b"foo"), Some(Vec::new()));
    assert_eq!(parent(b"./foo"), Some(b".".to_vec()));
    assert_eq!(parent(b"/foo"), Some(b"/".to_vec()));
    assert_eq!(parent(b"a//b/./"), Some(b"a".to_vec()));
    assert_eq!(parent(b"/"), None);
    assert_eq!(parent(b""), None);
}

#[test]
fn file_name_examples() {
    assert_eq!(file_name(b"/tmp/a.tar.gz"), Some(b"a.tar.gz".to_vec()));
    assert_eq!(file_name(b"dir/name/."), Some(b"name".to_vec()));
    assert_eq!(file_name(b"dir/.."), None);
    assert_eq!(file_name(b"/"), None);
}

#[test]
fn join_examples() {
    assert_eq!(join(b"/tmp", b"foo"), b"/tmp/foo".to_vec());
    assert_eq!(join(b"/tmp/", b"foo"), b"/tmp/foo".to_vec());
    assert_eq!(join(b"", b"foo"), b"foo".to_vec());
    assert_eq!(join(b"/tmp", b"/etc"), b"/etc".to_vec());
}

#[test]
fn parent_is_prefix_of_path() {
    for p in all_paths(6) {
        if let Some(q) = parent(p.as_bytes()) {
            assert!(p.as_bytes().starts_with(&q), "path {p:?}");
        }
    }
}

#[test]
fn parent_joined_with_file_name_has_the_same_components() {
    for p in all_paths(6) {
        if let Some(name) = file_name(p.as_bytes()) {
            let q = parent(p.as_bytes()).expect("a path with a file name has a parent");
            assert_eq!(path_parts(&join(&q, &name)), path_parts(p.as_bytes()), "path {p:?}");
        }
    }
    assert_eq!(parent(b"a/./b/"), Some(b"a".to_vec()));
}
