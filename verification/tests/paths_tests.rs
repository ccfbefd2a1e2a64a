use lex_core::includes::paths::{
    check_within_root, lexical_normalize, normalize_parts, PartsCheck, PathPart,
};
use lex_core::includes::{resolve_file_reference, IncludeError};
use std::path::{Path, PathBuf};

fn name(s: &str) -> PathPart {
    PathPart::Normal(PathBuf::from(s))
}

fn root_dir() -> PathPart {
    PathPart::RootDir(PathBuf::from("/"))
}

#[test]
fn root_absolute_target_resolves_under_root() {
    let r = resolve_file_reference(
        "/shared/h.lex",
        Some(Path::new("/repo/pages/host.lex")),
        Path::new("/repo"),
    );
    assert_eq!(r.unwrap(), PathBuf::from("/repo/shared/h.lex"));
}

#[test]
fn relative_target_resolves_from_host_directory() {
    let r = resolve_file_reference(
        "sub/snippet.lex",
        Some(Path::new("/repo/chapters/c1.lex")),
        Path::new("/repo"),
    );
    assert_eq!(r.unwrap(), PathBuf::from("/repo/chapters/sub/snippet.lex"));
}

#[test]
fn dotdot_within_root_is_normalized() {
    let r = resolve_file_reference(
        "../shared/foo.lex",
        Some(Path::new("/repo/pages/host.lex")),
        Path::new("/repo"),
    );
    assert_eq!(r.unwrap(), PathBuf::from("/repo/shared/foo.lex"));
}

#[test]
fn dotdot_escaping_root_is_rejected() {
    let r = resolve_file_reference(
        "../../etc/passwd",
        Some(Path::new("/repo/pages/host.lex")),
        Path::new("/repo"),
    );
    match r {
        Err(IncludeError::RootEscape { path, root }) => {
            assert_eq!(path, PathBuf::from("/etc/passwd"));
            assert_eq!(root, PathBuf::from("/repo"));
        }
        other => panic!("expected RootEscape, got {:?}", other),
    }
}

#[test]
fn missing_origin_resolves_from_root() {
    let r = resolve_file_reference("notes/a.lex", None, Path::new("/repo"));
    assert_eq!(r.unwrap(), PathBuf::from("/repo/notes/a.lex"));
}

#[test]
fn root_with_dot_segments_is_normalized_before_the_check() {
    let r = resolve_file_reference("x.lex", None, Path::new("/repo/./sub/.."));
    assert_eq!(r.unwrap(), PathBuf::from("/repo/x.lex"));
}

#[test]
fn lexical_normalize_keeps_unmatched_parent_dirs() {
    assert_eq!(lexical_normalize(Path::new("a/../../b")), PathBuf::from("../b"));
    assert_eq!(lexical_normalize(Path::new("../../etc/passwd")), PathBuf::from("../../etc/passwd"));
    assert_eq!(lexical_normalize(Path::new("./a/./b")), PathBuf::from("a/b"));
    assert_eq!(lexical_normalize(Path::new("/a/b/../c")), PathBuf::from("/a/c"));
    assert_eq!(lexical_normalize(Path::new("")), PathBuf::from(""));
}

#[test]
fn lexical_normalize_is_idempotent_on_examples() {
    for p in ["a/../../b", "./x/../y/./z", "/r/../../s", "../a/b/.."] {
        let once = lexical_normalize(Path::new(p));
        let twice = lexical_normalize(&once);
        assert_eq!(once, twice);
    }
}

#[test]
fn normalize_parts_cancels_names_only() {
    let parts = vec![
        name("a"),
        name("b"),
        PathPart::ParentDir,
        PathPart::ParentDir,
        PathPart::CurDir,
        PathPart::ParentDir,
        name("c"),
    ];
    let n = normalize_parts(&parts);
    assert_eq!(n.len(), 2);
    assert!(matches!(n[0], PathPart::ParentDir));
    match &n[1] {
        PathPart::Normal(p) => assert_eq!(p, &PathBuf::from("c")),
        other => panic!("unexpected {:?}", other),
    }
}

#[test]
fn check_within_root_reports_both_normal_forms() {
    let cand = vec![
        root_dir(),
        name("repo"),
        name("a"),
        PathPart::ParentDir,
        PathPart::ParentDir,
        name("x"),
    ];
    let root = vec![root_dir(), name("repo"), PathPart::CurDir];
    match check_within_root(&cand, &root) {
        PartsCheck::Escapes(p, r) => {
            assert_eq!(p.len(), 2);
            assert_eq!(r.len(), 2);
        }
        PartsCheck::Inside(_) => panic!("should escape"),
    }
    let cand = vec![
        root_dir(),
        name("repo"),
        name("a"),
        PathPart::ParentDir,
        name("b"),
        name("c"),
    ];
    match check_within_root(&cand, &root) {
        PartsCheck::Inside(p) => {
            assert_eq!(p.len(), 4);
            assert!(p[2..].iter().all(|c| !matches!(c, PathPart::ParentDir | PathPart::CurDir)));
        }
        PartsCheck::Escapes(..) => panic!("should stay inside"),
    }
}

#[test]
fn prefix_of_name_is_not_inside_root() {
    // `/repository` shares characters with `/repo` but not its components.
    let r = resolve_file_reference("/../repository/x.lex", None, Path::new("/repo"));
    assert!(matches!(r, Err(IncludeError::RootEscape { .. })));
}
