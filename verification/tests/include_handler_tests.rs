use lex_core::builtins::include_handler::LexIncludeHandler;
use lex_core::includes::ResolveConfig;
use lex_core::builtins::handler::{data_str, data_u64, DataValue, HandlerError};
use lex_core::builtins::include_handler::{
    include_error_to_handler, load_error_to_handler, locate_include, CODE_ABSOLUTE_PATH,
    CODE_IO, CODE_MISSING_SRC, CODE_NOT_FOUND, CODE_OUTSIDE_ROOT, CODE_TOO_LARGE,
};
use lex_core::includes::wire::handler_error_to_include_error;
use lex_core::includes::{IncludeError, LoadError, LoadedFile, Loader, MemoryLoader};
use lex_core::location::default_location;
use std::path::{Path, PathBuf};

fn code_of(err: &HandlerError) -> i32 {
    match err {
        HandlerError::Custom { code, .. } => *code,
        other => panic!("expected Custom code, got {other:?}"),
    }
}

#[test]
fn error_codes() {
    assert_eq!(CODE_MISSING_SRC, -32000);
    assert_eq!(CODE_NOT_FOUND, -32001);
    assert_eq!(CODE_OUTSIDE_ROOT, -32002);
    assert_eq!(CODE_TOO_LARGE, -32003);
    assert_eq!(CODE_ABSOLUTE_PATH, -32004);
    assert_eq!(CODE_IO, -32005);
}

#[test]
fn happy_path_loads_the_resolved_file() {
    let mut loader = MemoryLoader::new();
    loader.insert(PathBuf::from("/root/chapters/one.lex"), "One.\n");
    let f = locate_include("chapters/one.lex", Some(Path::new("/root/host.lex")), Path::new("/root"), &loader)
        .expect("loads");
    assert_eq!(f.source, "One.\n");
    assert_eq!(f.canonical_path, PathBuf::from("/root/chapters/one.lex"));
}

#[test]
fn not_found_maps_to_code_minus_32001() {
    let loader = MemoryLoader::new();
    let err = locate_include("missing.lex", Some(Path::new("/root/host.lex")), Path::new("/root"), &loader)
        .expect_err("must error");
    assert_eq!(code_of(&err), CODE_NOT_FOUND);
}

#[test]
fn outside_root_via_resolver_maps_to_code_minus_32002() {
    let loader = MemoryLoader::new();
    let err = locate_include(
        "../../../etc/passwd",
        Some(Path::new("/root/host.lex")),
        Path::new("/root"),
        &loader,
    )
    .expect_err("must error");
    assert_eq!(code_of(&err), CODE_OUTSIDE_ROOT);
}

#[test]
fn absolute_path_maps_to_code_minus_32004() {
    let loader = MemoryLoader::new();
    // Double slash: a UNC-style host on some platforms; treated as absolute there.
    let absolute = "//absolute/elsewhere";
    let err = locate_include(absolute, Some(Path::new("/root/host.lex")), Path::new("/root"), &loader)
        .expect_err("must error");
    let code = code_of(&err);
    assert!(
        code == CODE_ABSOLUTE_PATH || code == CODE_OUTSIDE_ROOT,
        "expected -32002 or -32004, got {code}"
    );
}

struct MockEscape;
impl Loader for MockEscape {
    fn load(&self, path: &Path) -> Result<LoadedFile, LoadError> {
        Err(LoadError::OutsideRoot {
            path: path.to_path_buf(),
            root: PathBuf::from("/root"),
        })
    }
}

#[test]
fn loader_outside_root_maps_to_code_minus_32002() {
    let err = locate_include("inner.lex", Some(Path::new("/root/host.lex")), Path::new("/root"), &MockEscape)
        .expect_err("must error");
    assert_eq!(code_of(&err), CODE_OUTSIDE_ROOT);
}

struct MockTooLarge;
impl Loader for MockTooLarge {
    fn load(&self, path: &Path) -> Result<LoadedFile, LoadError> {
        Err(LoadError::TooLarge {
            path: path.to_path_buf(),
            size: 1_000_000,
            limit: 100,
        })
    }
}

#[test]
fn too_large_maps_to_code_minus_32003() {
    let err = locate_include("big.lex", Some(Path::new("/root/host.lex")), Path::new("/root"), &MockTooLarge)
        .expect_err("must error");
    match err {
        HandlerError::Custom { code, data, .. } => {
            assert_eq!(code, CODE_TOO_LARGE);
            assert!(data.is_some(), "data attached");
            assert_eq!(data_u64(&data, "size"), Some(1_000_000));
            assert_eq!(data_u64(&data, "limit"), Some(100));
        }
        other => panic!("expected TooLarge→Custom, got {other:?}"),
    }
}

struct MockIo;
impl Loader for MockIo {
    fn load(&self, path: &Path) -> Result<LoadedFile, LoadError> {
        Err(LoadError::Io {
            path: path.to_path_buf(),
            message: "permission denied".into(),
        })
    }
}

#[test]
fn io_error_maps_to_code_minus_32005() {
    let err = locate_include("locked.lex", Some(Path::new("/root/host.lex")), Path::new("/root"), &MockIo)
        .expect_err("must error");
    assert_eq!(code_of(&err), CODE_IO);
}

#[test]
fn load_errors_carry_message_and_path_data() {
    let h = load_error_to_handler(&LoadError::NotFound { path: PathBuf::from("/r/a.lex") });
    match &h {
        HandlerError::Custom { code, message, data } => {
            assert_eq!(*code, CODE_NOT_FOUND);
            assert_eq!(message, "include not found: /r/a.lex");
            assert_eq!(data_str(data, "path"), Some("/r/a.lex".to_string()));
        }
        other => panic!("unexpected {other:?}"),
    }
    let h = load_error_to_handler(&LoadError::Io {
        path: PathBuf::from("/r/b.lex"),
        message: "denied".into(),
    });
    match &h {
        HandlerError::Custom { message, .. } => assert_eq!(message, "io error reading /r/b.lex: denied"),
        other => panic!("unexpected {other:?}"),
    }
}

#[test]
fn include_errors_map_to_codes_or_internal() {
    let h = include_error_to_handler(&IncludeError::AbsolutePath { path: PathBuf::from("C:\\x") });
    match &h {
        HandlerError::Custom { code, message, .. } => {
            assert_eq!(*code, CODE_ABSOLUTE_PATH);
            assert_eq!(message, "lex.include `src` rejected: C:\\x is a platform-absolute path");
        }
        other => panic!("unexpected {other:?}"),
    }
    let h = include_error_to_handler(&IncludeError::RootEscape {
        path: PathBuf::from("/etc/passwd"),
        root: PathBuf::from("/root"),
    });
    match &h {
        HandlerError::Custom { code, message, data } => {
            assert_eq!(*code, CODE_OUTSIDE_ROOT);
            assert_eq!(message, "include path /etc/passwd resolves outside resolution root /root");
            assert_eq!(data_str(data, "root"), Some("/root".to_string()));
        }
        other => panic!("unexpected {other:?}"),
    }
    let h = include_error_to_handler(&IncludeError::MissingSrc { include_site: default_location() });
    assert_eq!(
        h,
        HandlerError::Internal {
            message: "path resolution failed: lex.include annotation missing required src= parameter".into()
        }
    );
}

#[test]
fn handler_errors_map_back_to_include_errors() {
    let site = default_location();
    let h = load_error_to_handler(&LoadError::TooLarge {
        path: PathBuf::from("/r/big.lex"),
        size: 9,
        limit: 3,
    });
    match handler_error_to_include_error(&h, "lex.include", &site) {
        IncludeError::FileTooLarge { path, size, limit, .. } => {
            assert_eq!(path, PathBuf::from("/r/big.lex"));
            assert_eq!((size, limit), (9, 3));
        }
        other => panic!("unexpected {other:?}"),
    }
    let h = load_error_to_handler(&LoadError::OutsideRoot {
        path: PathBuf::from("/x"),
        root: PathBuf::from("/r"),
    });
    match handler_error_to_include_error(&h, "lex.include", &site) {
        IncludeError::RootEscape { path, root } => {
            assert_eq!(path, PathBuf::from("/x"));
            assert_eq!(root, PathBuf::from("/r"));
        }
        other => panic!("unexpected {other:?}"),
    }
    let h = load_error_to_handler(&LoadError::Io {
        path: PathBuf::from("/r/c.lex"),
        message: "denied".into(),
    });
    match handler_error_to_include_error(&h, "lex.include", &site) {
        IncludeError::LoaderIo { path, message } => {
            assert_eq!(path, PathBuf::from("/r/c.lex"));
            assert_eq!(message, "io error reading /r/c.lex: denied");
        }
        other => panic!("unexpected {other:?}"),
    }
}

#[test]
fn unknown_codes_and_other_failures_become_handler_failed() {
    let site = default_location();
    let h = HandlerError::Custom {
        code: -7,
        message: "boom".into(),
        data: None,
    };
    match handler_error_to_include_error(&h, "acme.expand", &site) {
        IncludeError::HandlerFailed { label, code, message, .. } => {
            assert_eq!(label, "acme.expand");
            assert_eq!(code, "handler.custom(-7)");
            assert_eq!(message, "boom");
        }
        other => panic!("unexpected {other:?}"),
    }
    let h = HandlerError::Unsupported { detail: "nope".into() };
    match handler_error_to_include_error(&h, "x", &site) {
        IncludeError::HandlerFailed { code, message, .. } => {
            assert_eq!(code, "handler.unsupported");
            assert_eq!(message, "nope");
        }
        other => panic!("unexpected {other:?}"),
    }
    let h = HandlerError::internal("bad".into());
    match handler_error_to_include_error(&h, "x", &site) {
        IncludeError::HandlerFailed { code, .. } => assert_eq!(code, "handler.internal"),
        other => panic!("unexpected {other:?}"),
    }
    let h = HandlerError::Custom {
        code: CODE_MISSING_SRC,
        message: String::new(),
        data: None,
    };
    assert!(matches!(
        handler_error_to_include_error(&h, "lex.include", &site),
        IncludeError::MissingSrc { .. }
    ));
    let h = HandlerError::Custom {
        code: CODE_NOT_FOUND,
        message: String::new(),
        data: Some(vec![("path".into(), DataValue::U64(3))]),
    };
    match handler_error_to_include_error(&h, "lex.include", &site) {
        IncludeError::NotFound { path, .. } => assert_eq!(path, PathBuf::new()),
        other => panic!("unexpected {other:?}"),
    }
}

#[test]
fn include_handler_locates_under_its_root() {
    let mut loader = MemoryLoader::new();
    loader.insert(PathBuf::from("/root/a/b.lex"), "B.\n");
    let handler = LexIncludeHandler::new(loader, ResolveConfig::with_root(PathBuf::from("/root")));
    assert_eq!(handler.root(), &PathBuf::from("/root"));
    let f = handler.locate("b.lex", Some(Path::new("/root/a/host.lex"))).expect("loads");
    assert_eq!(f.source, "B.\n");
    let err = handler.locate("/missing.lex", None).expect_err("not found");
    assert_eq!(code_of(&err), CODE_NOT_FOUND);
}

#[test]
fn from_pairs_inserts_in_order_replacing_equal_paths() {
    let loader = MemoryLoader::from_pairs(vec![("/r/a.lex", "one"), ("/r/b.lex", "two"), ("/r/a.lex", "three")]);
    assert_eq!(loader.lookup(&PathBuf::from("/r/a.lex")), Some("three".to_string()));
    assert_eq!(loader.lookup(&PathBuf::from("/r/b.lex")), Some("two".to_string()));
    assert_eq!(loader.lookup(&PathBuf::from("/r/c.lex")), None);
}
