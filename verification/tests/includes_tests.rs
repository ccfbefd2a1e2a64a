use lex_core::includes::{IncludeError, LoadError, Loader, MemoryLoader, ResolveConfig};
use lex_core::location::Range;
use std::path::{Path, PathBuf};

#[test]
fn resolve_config_default_depth() {
    let cfg = ResolveConfig::with_root(PathBuf::from("/x"));
    assert_eq!(cfg.max_depth, 8);
    assert_eq!(ResolveConfig::DEFAULT_MAX_DEPTH, 8);
}

#[test]
fn memory_loader_returns_inserted_files() {
    let loader = MemoryLoader::from_pairs(vec![
        (PathBuf::from("/a.lex"), "Aaa\n"),
        (PathBuf::from("/b.lex"), "Bbb\n"),
    ]);
    assert_eq!(loader.load(Path::new("/a.lex")).unwrap().source, "Aaa\n");
    assert_eq!(loader.load(Path::new("/b.lex")).unwrap().source, "Bbb\n");
}

#[test]
fn memory_loader_missing_returns_not_found() {
    let loader = MemoryLoader::new();
    match loader.load(Path::new("/missing.lex")) {
        Err(LoadError::NotFound { path }) => assert_eq!(path, PathBuf::from("/missing.lex")),
        other => panic!("expected NotFound, got {other:?}"),
    }
}

#[test]
fn errors_format_with_relevant_paths() {
    let cycle = IncludeError::Cycle {
        include_site: Range::default(),
        path: PathBuf::from("/a.lex"),
        chain: vec![PathBuf::from("/main.lex"), PathBuf::from("/a.lex")],
    };
    let s = cycle.message();
    assert!(s.contains("/a.lex"));
    assert!(s.contains("/main.lex"));

    let depth = IncludeError::DepthExceeded {
        include_site: Range::default(),
        limit: 8,
        chain: vec![],
    };
    assert!(depth.message().contains("8"));

    let escape = IncludeError::RootEscape {
        path: PathBuf::from("/etc/passwd"),
        root: PathBuf::from("/project"),
    };
    let s = escape.message();
    assert!(s.contains("/etc/passwd"));
    assert!(s.contains("/project"));

    let policy = IncludeError::ContainerPolicy {
        include_site: Range::default(),
        container: "Definition",
        file: PathBuf::from("/chapter.lex"),
        violation: "Sessions",
    };
    let s = policy.message();
    assert!(s.contains("Definition"));
    assert!(s.contains("/chapter.lex"));
    assert!(s.contains("Sessions"));
    assert!(s.contains("does not allow Sessions"));
}

#[test]
fn cycle_message_joins_chain_with_arrows() {
    let cycle = IncludeError::Cycle {
        include_site: Range::default(),
        path: PathBuf::from("/a.lex"),
        chain: vec![PathBuf::from("/main.lex"), PathBuf::from("/a.lex")],
    };
    assert_eq!(cycle.message(), "include cycle: /a.lex (chain: /main.lex -> /a.lex)");
}

#[test]
fn too_large_messages_print_sizes_in_decimal() {
    let e = LoadError::TooLarge { path: PathBuf::from("/big.lex"), size: 1000000, limit: 100 };
    assert_eq!(e.message(), "include file /big.lex is 1000000 bytes, exceeds limit of 100 bytes");
    let e = IncludeError::TotalIncludesExceeded { include_site: Range::default(), limit: 0 };
    assert_eq!(e.message(), "total include count exceeded limit of 0");
}

#[test]
fn memory_loader_insert_replaces_equal_path() {
    let mut loader = MemoryLoader::new();
    loader.insert("/a.lex", "one").insert("/a.lex", "two");
    assert_eq!(loader.load(Path::new("/a.lex")).unwrap().source, "two");
    assert_eq!(loader.load(Path::new("/a.lex")).unwrap().canonical_path, PathBuf::from("/a.lex"));
}

#[test]
fn inserted_entry_is_found_again() {
    let mut loader = MemoryLoader::new();
    loader.insert_entry(PathBuf::from("/x/y.lex"), "Y\n".to_string());
    loader.insert_entry(PathBuf::from("/x/z.lex"), "Z\n".to_string());
    loader.insert_entry(PathBuf::from("/x/y.lex"), "Y2\n".to_string());
    assert_eq!(loader.lookup(&PathBuf::from("/x/y.lex")), Some("Y2\n".to_string()));
    let f = loader.load(Path::new("/x/z.lex")).unwrap();
    assert_eq!(f.source, "Z\n");
    assert_eq!(f.canonical_path, PathBuf::from("/x/z.lex"));
}
