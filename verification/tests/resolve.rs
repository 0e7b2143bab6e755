use fs_util::path::{FsPath, Segment};
use fs_util::resolve::{normalize_path, resolve_from_cwd, ResolveError};
use std::path::{Component, Path, PathBuf, MAIN_SEPARATOR};

fn resolve_path(path: &Path) -> FsPath {
    FsPath::from_segments(
        path.components()
            .map(|c| match c {
                Component::Prefix(p) => Segment::Prefix(p.as_os_str().to_string_lossy().into_owned()),
                Component::RootDir => Segment::RootDir,
                Component::CurDir => Segment::CurDir,
                Component::ParentDir => Segment::ParentDir,
                Component::Normal(n) => Segment::Normal(n.to_string_lossy().into_owned()),
            })
            .collect(),
    )
}

fn resolve_cwd() -> PathBuf {
    PathBuf::from("/home/user/project")
}

#[test]
fn resolve_from_cwd_child() {
    let cwd = resolve_cwd();
    let resolved = resolve_from_cwd(&resolve_path(Path::new("a")), Some(&resolve_path(&cwd)));
    assert!(resolved.unwrap().same(&resolve_path(&cwd.join("a"))));
}

#[test]
fn resolve_from_cwd_dot() {
    let cwd = resolve_cwd();
    let resolved = resolve_from_cwd(&resolve_path(Path::new(".")), Some(&resolve_path(&cwd)));
    assert!(resolved.unwrap().same(&resolve_path(&cwd)));
}

#[test]
fn resolve_from_cwd_parent() {
    let cwd = resolve_cwd();
    let resolved = resolve_from_cwd(&resolve_path(Path::new("a/..")), Some(&resolve_path(&cwd)));
    assert!(resolved.unwrap().same(&resolve_path(&cwd)));
}

#[test]
fn resolve_from_cwd_absolute() {
    let expected = Path::new("/a");
    let cwd = resolve_cwd();
    let resolved = resolve_from_cwd(&resolve_path(expected), Some(&resolve_path(&cwd)));
    assert!(resolved.unwrap().same(&resolve_path(expected)));
    // an absolute path needs no current directory
    let resolved = resolve_from_cwd(&resolve_path(expected), None);
    assert!(resolved.unwrap().same(&resolve_path(expected)));
}

#[test]
fn resolve_relative_needs_the_current_directory() {
    let resolved = resolve_from_cwd(&resolve_path(Path::new("a")), None);
    assert_eq!(resolved.unwrap_err(), ResolveError::NoCurrentDir);
}

#[test]
fn test_normalize_path() {
    assert!(normalize_path(&resolve_path(Path::new("a/../b")))
        .same(&resolve_path(&PathBuf::from("b"))));
    assert!(normalize_path(&resolve_path(Path::new("a/./b/")))
        .same(&resolve_path(&PathBuf::from("a/b/"))));
    assert!(normalize_path(&resolve_path(Path::new("a/./b/../c")))
        .same(&resolve_path(&PathBuf::from("a/c"))));

    if MAIN_SEPARATOR == '\\' {
        assert!(normalize_path(&resolve_path(Path::new("C:\\a\\.\\b\\..\\c")))
            .same(&resolve_path(&PathBuf::from("C:\\a\\c"))));
    }
}

#[test]
fn resolve_normalize_drops_what_leads_nowhere() {
    for (given, expected) in [
        ("", ""),
        (".", ""),
        ("./a", "a"),
        ("..", ""),
        ("../a", "a"),
        ("/..", "/"),
        ("/../a", "/a"),
        ("/a/b/../../..", "/"),
        ("a/b/c/../..", "a"),
        ("/a/./b", "/a/b"),
        ("a/../../b", "b"),
    ] {
        assert!(
            normalize_path(&resolve_path(Path::new(given))).same(&resolve_path(Path::new(expected))),
            "{:?}",
            given
        );
    }
}

#[test]
fn resolve_join_agrees_with_std() {
    let samples = ["", ".", "..", "a", "/", "/a", "a/b", "./a", "../a", "/a/b", "a/.."];
    for base in samples {
        for other in samples {
            let expected = Path::new(base).join(other);
            assert!(
                resolve_path(Path::new(base))
                    .join(&resolve_path(Path::new(other)))
                    .same(&resolve_path(&expected)),
                "{:?} joined with {:?}",
                base,
                other
            );
        }
        assert_eq!(resolve_path(Path::new(base)).is_absolute(), Path::new(base).is_absolute());
    }
}

#[test]
fn resolve_portable_paths() {
    for (text, portable) in [
        ("/a/b", true),
        ("a/../b", true),
        ("./a", true),
        ("", true),
        ("/a/b.", false),
        ("/a/b ", false),
        ("/a/c:", false),
        ("/a\\b", false),
    ] {
        assert_eq!(resolve_path(Path::new(text)).is_portable(), portable, "{:?}", text);
    }
    let rooted_late = FsPath::from_segments(vec![Segment::Normal("a".to_string()), Segment::RootDir]);
    assert!(!rooted_late.is_portable());
    let prefixed = FsPath::from_segments(vec![Segment::Prefix("C:".to_string()), Segment::RootDir]);
    assert!(!prefixed.is_portable());
    assert!(prefixed.is_absolute());
    let dotted = FsPath::from_segments(vec![Segment::Normal("..".to_string())]);
    assert!(!dotted.is_portable());
}
