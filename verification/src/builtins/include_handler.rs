//! The `lex.include` handler's error protocol: the error codes, the mapping
//! of load and path-resolution errors onto handler failures, and the
//! resolve-then-load step that precedes parsing an included file.
use vstd::prelude::*;
use std::path::Path;
use super::handler::{custom_data, custom_is, str_entries, DataValue, HandlerError};
use crate::includes::errors::{display_path, include_error_text, load_error_text, path_text};
use crate::includes::paths::{host_dir_of, resolve_file_reference, resolved};
use crate::includes::loaders::path_of;
use std::path::PathBuf;
use crate::includes::{IncludeError, LoadError, LoadedFile, Loader, ResolveConfig};

verus! {

/// Error code: the `lex.include` annotation lacks its required `src` parameter.
pub const CODE_MISSING_SRC: i32 = -32000;
/// Error code: the loader found nothing at the path.
pub const CODE_NOT_FOUND: i32 = -32001;
/// Error code: the path lies outside the loader's root, or the resolver
/// rejected it as a root escape.
pub const CODE_OUTSIDE_ROOT: i32 = -32002;
/// Error code: the target exceeds the loader's size cap.
pub const CODE_TOO_LARGE: i32 = -32003;
/// Error code: the `src` was a platform-absolute path.
pub const CODE_ABSOLUTE_PATH: i32 = -32004;
/// Error code: an I/O error while loading.
pub const CODE_IO: i32 = -32005;

/// The handler failure a load error becomes: its code, the load error's
/// message, and the paths (and sizes) as structured data.
pub open spec fn load_handler_spec(e: LoadError, h: HandlerError) -> bool {
    match e {
        LoadError::NotFound { path } => custom_is(h, CODE_NOT_FOUND, load_error_text(e))
            && str_entries(custom_data(h), seq![("path"@, path_text(path))]),
        LoadError::OutsideRoot { path, root } => custom_is(h, CODE_OUTSIDE_ROOT, load_error_text(e))
            && str_entries(custom_data(h), seq![("path"@, path_text(path)), ("root"@, path_text(root))]),
        LoadError::TooLarge { path, size, limit } => custom_is(h, CODE_TOO_LARGE, load_error_text(e))
            && match custom_data(h) {
                Some(d) => d@.len() == 3 && d@[0].0@ == "path"@
                    && (d@[0].1 matches DataValue::Str(s) && s@ == path_text(path))
                    && d@[1].0@ == "size"@ && d@[1].1 == DataValue::U64(size)
                    && d@[2].0@ == "limit"@ && d@[2].1 == DataValue::U64(limit),
                None => false,
            },
        LoadError::Io { path, .. } => custom_is(h, CODE_IO, load_error_text(e))
            && str_entries(custom_data(h), seq![("path"@, path_text(path))]),
    }
}

/// The handler failure a path-resolution error becomes: absolute paths and
/// root escapes get their own codes; anything else is an internal failure.
pub open spec fn include_handler_spec(e: IncludeError, h: HandlerError) -> bool {
    match e {
        IncludeError::AbsolutePath { path } => custom_is(
            h,
            CODE_ABSOLUTE_PATH,
            "lex.include `src` rejected: "@ + path_text(path) + " is a platform-absolute path"@,
        ) && str_entries(custom_data(h), seq![("path"@, path_text(path))]),
        IncludeError::RootEscape { path, root } => custom_is(
            h,
            CODE_OUTSIDE_ROOT,
            "include path "@ + path_text(path) + " resolves outside resolution root "@ + path_text(root),
        ) && str_entries(custom_data(h), seq![("path"@, path_text(path)), ("root"@, path_text(root))]),
        _ => h matches HandlerError::Internal { message } && message@ == "path resolution failed: "@
            + include_error_text(e),
    }
}

/// A `path` string entry.
fn path_entry(key: &str, p: &std::path::PathBuf) -> (r: (String, DataValue))
    ensures
        r.0@ == key@,
        r.1 matches DataValue::Str(s) && s@ == path_text(*p),
{
    (key.to_owned(), DataValue::Str(display_path(p)))
}

/// Map a load error onto the handler failure that reports it.
pub fn load_error_to_handler(err: &LoadError) -> (h: HandlerError)
    ensures
        load_handler_spec(*err, h),
{
    let message = err.message();
    match err {
        LoadError::NotFound { path } => {
            HandlerError::Custom { code: CODE_NOT_FOUND, message, data: Some(vec![path_entry("path", path)]) }
        },
        LoadError::OutsideRoot { path, root } => {
            HandlerError::Custom {
                code: CODE_OUTSIDE_ROOT,
                message,
                data: Some(vec![path_entry("path", path), path_entry("root", root)]),
            }
        },
        LoadError::TooLarge { path, size, limit } => {
            HandlerError::Custom {
                code: CODE_TOO_LARGE,
                message,
                data: Some(
                    vec![
                        path_entry("path", path),
                        ("size".to_owned(), DataValue::U64(*size)),
                        ("limit".to_owned(), DataValue::U64(*limit)),
                    ],
                ),
            }
        },
        LoadError::Io { path, .. } => {
            HandlerError::Custom { code: CODE_IO, message, data: Some(vec![path_entry("path", path)]) }
        },
    }
}

/// Map a path-resolution error onto the handler failure that reports it.
pub fn include_error_to_handler(err: &IncludeError) -> (h: HandlerError)
    ensures
        include_handler_spec(*err, h),
{
    let mut message = String::new();
    match err {
        IncludeError::AbsolutePath { path } => {
            message.append("lex.include `src` rejected: ");
            message.append(display_path(path).as_str());
            message.append(" is a platform-absolute path");
            HandlerError::Custom { code: CODE_ABSOLUTE_PATH, message, data: Some(vec![path_entry("path", path)]) }
        },
        IncludeError::RootEscape { path, root } => {
            message.append("include path ");
            message.append(display_path(path).as_str());
            message.append(" resolves outside resolution root ");
            message.append(display_path(root).as_str());
            HandlerError::Custom {
                code: CODE_OUTSIDE_ROOT,
                message,
                data: Some(vec![path_entry("path", path), path_entry("root", root)]),
            }
        },
        _ => {
            message.append("path resolution failed: ");
            message.append(err.message().as_str());
            HandlerError::internal(message)
        },
    }
}

/// The outcome of locating an include: when resolving the target fails,
/// the handler failure of that error; otherwise an outcome the loader gives
/// for the resolved path, a load error coming back as its handler failure.
pub open spec fn locate_outcome<L: Loader>(src: Seq<char>, host: PathBuf, root: PathBuf, loader: L, r: Result<LoadedFile, HandlerError>) -> bool {
    match resolved(src, host, root) {
        Err(e) => r matches Err(h) && include_handler_spec(e, h),
        Ok(p) => match r {
            Ok(f) => loader.loads(p, Ok(f)),
            Err(h) => exists|e: LoadError| #[trigger] load_handler_spec(e, h) && loader.loads(p, Err(e)),
        },
    }
}

/// The steps of resolving a `lex.include` before its target is parsed:
/// resolve `src` from the host file's directory (or the root when the host
/// has no origin) and load the result through `loader`. A resolution error
/// or a load error comes back as the handler failure that reports it.
pub fn locate_include<L: Loader>(src: &str, host_origin: Option<&Path>, root: &Path, loader: &L) -> (r: Result<LoadedFile, HandlerError>)
    ensures
        locate_outcome(src@, host_dir_of(host_origin, path_of(root)), path_of(root), *loader, r),
{
    let target = match resolve_file_reference(src, host_origin, root) {
        Ok(t) => t,
        Err(e) => {
            let h = include_error_to_handler(&e);
            assert(include_handler_spec(e, h));
            return Err(h);
        },
    };
    match loader.load(target.as_path()) {
        Ok(f) => Ok(f),
        Err(e) => {
            let h = load_error_to_handler(&e);
            assert(load_handler_spec(e, h) && loader.loads(target, Err(e)));
            Err(h)
        },
    }
}

/// The `lex.include` handler: the loader it reads through and the resolve
/// configuration (root and limits) it was built with.
pub struct LexIncludeHandler<L: Loader> {
    loader: L,
    config: ResolveConfig,
}

impl<L: Loader> LexIncludeHandler<L> {
    /// The resolve configuration.
    pub closed spec fn config(&self) -> ResolveConfig {
        self.config
    }

    /// The loader.
    pub closed spec fn loader(&self) -> L {
        self.loader
    }

    /// A handler reading through `loader` under `config`.
    pub fn new(loader: L, config: ResolveConfig) -> (h: Self)
        ensures
            h.loader() == loader,
            h.config() == config,
    {
        LexIncludeHandler { loader, config }
    }

    /// The resolution root the handler was built with.
    pub fn root(&self) -> (r: &std::path::PathBuf)
        ensures
            *r == self.config().root,
    {
        &self.config.root
    }

    /// Resolve `src` from the host file's directory under the handler's
    /// root and load it, as [`locate_include`] does.
    pub fn locate(&self, src: &str, host_origin: Option<&Path>) -> (r: Result<LoadedFile, HandlerError>)
        ensures
            locate_outcome(src@, host_dir_of(host_origin, self.config().root), self.config().root, self.loader(), r),
    {
        locate_include(src, host_origin, self.config.root.as_path(), &self.loader)
    }
}

} // verus!
