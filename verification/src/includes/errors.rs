//! Errors of include loading and resolution, and the messages that describe them.
use vstd::prelude::*;
use vstd::string::*;
use std::path::PathBuf;
use crate::location::Range;
use crate::text::{decimal, decimal_string};

verus! {

/// What `p.display().to_string()` gives for a path: its text.
pub uninterp spec fn path_text(p: PathBuf) -> Seq<char>;

/// The text of `p` (`Path::display`, then `ToString::to_string`).
#[verifier::external_body]
pub(crate) fn display_path(p: &PathBuf) -> (s: String)
    ensures
        s@ == path_text(*p),
{
    p.display().to_string()
}

/// Errors a [`Loader`](super::Loader) can produce.
#[derive(Debug, Clone)]
pub enum LoadError {
    /// No resource at the given path.
    NotFound { path: PathBuf },
    /// The resource resolves outside the loader's allowed boundary.
    OutsideRoot { path: PathBuf, root: PathBuf },
    /// The resource is larger than the loader's limit (bytes).
    TooLarge { path: PathBuf, size: u64, limit: u64 },
    /// Underlying I/O error.
    Io { path: PathBuf, message: String },
}

/// The message that describes a load error.
pub open spec fn load_error_text(e: LoadError) -> Seq<char> {
    match e {
        LoadError::NotFound { path } => "include not found: "@ + path_text(path),
        LoadError::OutsideRoot { path, root } => "include path "@ + path_text(path)
            + " resolves outside loader root "@ + path_text(root),
        LoadError::TooLarge { path, size, limit } => "include file "@ + path_text(path) + " is "@
            + decimal(size as nat) + " bytes, exceeds limit of "@ + decimal(limit as nat)
            + " bytes"@,
        LoadError::Io { path, message } => "io error reading "@ + path_text(path) + ": "@
            + message@,
    }
}

impl LoadError {
    /// The human-readable description of this error.
    pub fn message(&self) -> (s: String)
        ensures
            s@ == load_error_text(*self),
    {
        let mut s = String::new();
        match self {
            LoadError::NotFound { path } => {
                s.append("include not found: ");
                s.append(display_path(path).as_str());
            },
            LoadError::OutsideRoot { path, root } => {
                s.append("include path ");
                s.append(display_path(path).as_str());
                s.append(" resolves outside loader root ");
                s.append(display_path(root).as_str());
            },
            LoadError::TooLarge { path, size, limit } => {
                s.append("include file ");
                s.append(display_path(path).as_str());
                s.append(" is ");
                s.append(decimal_string(*size).as_str());
                s.append(" bytes, exceeds limit of ");
                s.append(decimal_string(*limit).as_str());
                s.append(" bytes");
            },
            LoadError::Io { path, message } => {
                s.append("io error reading ");
                s.append(display_path(path).as_str());
                s.append(": ");
                s.append(message.as_str());
            },
        }
        s
    }
}

/// Errors the include resolver can produce.
#[derive(Debug, Clone)]
pub enum IncludeError {
    /// An include chain looped back on itself (`chain` in source order).
    Cycle { include_site: Range, path: PathBuf, chain: Vec<PathBuf> },
    /// The include depth exceeded the configured maximum.
    DepthExceeded { include_site: Range, limit: usize, chain: Vec<PathBuf> },
    /// The total number of includes exceeded the configured maximum.
    TotalIncludesExceeded { include_site: Range, limit: usize },
    /// The included file is larger than the loader's limit (bytes).
    FileTooLarge { include_site: Range, path: PathBuf, size: u64, limit: u64 },
    /// A path resolved outside the configured root.
    RootEscape { path: PathBuf, root: PathBuf },
    /// The include `src` was a platform-absolute filesystem path.
    AbsolutePath { path: PathBuf },
    /// The loader could not find the included file.
    NotFound { include_site: Range, path: PathBuf },
    /// The loaded text was rejected by the parser.
    ParseFailed { path: PathBuf, message: String },
    /// The included content is not legal in the include site's container.
    ContainerPolicy {
        include_site: Range,
        container: &'static str,
        file: PathBuf,
        violation: &'static str,
    },
    /// The loader propagated an I/O error other than not-found.
    LoaderIo { path: PathBuf, message: String },
    /// The include annotation has no `src=` parameter.
    MissingSrc { include_site: Range },
    /// A registered handler failed in a way no other variant describes.
    HandlerFailed { include_site: Range, label: String, code: String, message: String },
}

/// The texts of `chain`, joined by `" -> "`.
pub open spec fn chain_text(chain: Seq<PathBuf>) -> Seq<char>
    decreases chain.len(),
{
    if chain.len() == 0 {
        Seq::empty()
    } else if chain.len() == 1 {
        path_text(chain[0])
    } else {
        chain_text(chain.drop_last()) + " -> "@ + path_text(chain.last())
    }
}

/// The message that describes an include error.
pub open spec fn include_error_text(e: IncludeError) -> Seq<char> {
    match e {
        IncludeError::Cycle { path, chain, .. } => "include cycle: "@ + path_text(path)
            + " (chain: "@ + chain_text(chain@) + ")"@,
        IncludeError::DepthExceeded { limit, chain, .. } => "include depth exceeded limit of "@
            + decimal(limit as nat) + " (chain: "@ + chain_text(chain@) + ")"@,
        IncludeError::TotalIncludesExceeded { limit, .. } =>
            "total include count exceeded limit of "@ + decimal(limit as nat),
        IncludeError::FileTooLarge { path, size, limit, .. } => "included file "@ + path_text(path)
            + " is "@ + decimal(size as nat) + " bytes, exceeds limit of "@ + decimal(limit as nat)
            + " bytes"@,
        IncludeError::RootEscape { path, root } => "include path "@ + path_text(path)
            + " escapes resolution root "@ + path_text(root),
        IncludeError::AbsolutePath { path } => "include src "@ + path_text(path)
            + ABSOLUTE_PATH_ADVICE@,
        IncludeError::NotFound { path, .. } => "include not found: "@ + path_text(path),
        IncludeError::ParseFailed { path, message } => "failed to parse "@ + path_text(path) + ": "@
            + message@,
        IncludeError::ContainerPolicy { container, file, violation, .. } => "included file "@
            + path_text(file) + " contains "@ + violation@ + " but include site is inside "@
            + container@ + " (which does not allow "@ + violation@ + ")"@,
        IncludeError::LoaderIo { path, message } => "loader error reading "@ + path_text(path)
            + ": "@ + message@,
        IncludeError::MissingSrc { .. } => "lex.include annotation missing required src= parameter"@,
        IncludeError::HandlerFailed { label, code, message, .. } => "extension handler `"@ + label@
            + "` failed ("@ + code@ + "): "@ + message@,
    }
}

/// The explanation that follows the path of an absolute `src`.
pub const ABSOLUTE_PATH_ADVICE: &'static str = " is a platform-absolute path; the spec forbids absolute filesystem paths — use a relative path (chapters/01.lex) or a root-absolute path (/shared/01.lex)";

/// The texts of `chain`, joined by `" -> "`.
fn join_chain(chain: &Vec<PathBuf>) -> (s: String)
    ensures
        s@ == chain_text(chain@),
{
    let mut s = String::new();
    let mut i: usize = 0;
    while i < chain.len()
        invariant
            i <= chain@.len(),
            s@ == chain_text(chain@.take(i as int)),
        decreases chain@.len() - i,
    {
        if i > 0 {
            s.append(" -> ");
        }
        s.append(display_path(&chain[i]).as_str());
        proof {
            assert(chain@.take(i + 1).drop_last() =~= chain@.take(i as int));
            if i == 0 {
                assert(s@ == path_text(chain@[0]));
            }
        }
        i += 1;
    }
    assert(chain@.take(chain@.len() as int) =~= chain@);
    s
}

impl IncludeError {
    /// The human-readable description of this error.
    pub fn message(&self) -> (s: String)
        ensures
            s@ == include_error_text(*self),
    {
        let mut s = String::new();
        match self {
            IncludeError::Cycle { path, chain, .. } => {
                s.append("include cycle: ");
                s.append(display_path(path).as_str());
                s.append(" (chain: ");
                s.append(join_chain(chain).as_str());
                s.append(")");
            },
            IncludeError::DepthExceeded { limit, chain, .. } => {
                s.append("include depth exceeded limit of ");
                s.append(decimal_string(*limit as u64).as_str());
                s.append(" (chain: ");
                s.append(join_chain(chain).as_str());
                s.append(")");
            },
            IncludeError::TotalIncludesExceeded { limit, .. } => {
                s.append("total include count exceeded limit of ");
                s.append(decimal_string(*limit as u64).as_str());
            },
            IncludeError::FileTooLarge { path, size, limit, .. } => {
                s.append("included file ");
                s.append(display_path(path).as_str());
                s.append(" is ");
                s.append(decimal_string(*size).as_str());
                s.append(" bytes, exceeds limit of ");
                s.append(decimal_string(*limit).as_str());
                s.append(" bytes");
            },
            IncludeError::RootEscape { path, root } => {
                s.append("include path ");
                s.append(display_path(path).as_str());
                s.append(" escapes resolution root ");
                s.append(display_path(root).as_str());
            },
            IncludeError::AbsolutePath { path } => {
                s.append("include src ");
                s.append(display_path(path).as_str());
                s.append(ABSOLUTE_PATH_ADVICE);
            },
            IncludeError::NotFound { path, .. } => {
                s.append("include not found: ");
                s.append(display_path(path).as_str());
            },
            IncludeError::ParseFailed { path, message } => {
                s.append("failed to parse ");
                s.append(display_path(path).as_str());
                s.append(": ");
                s.append(message.as_str());
            },
            IncludeError::ContainerPolicy { container, file, violation, .. } => {
                s.append("included file ");
                s.append(display_path(file).as_str());
                s.append(" contains ");
                s.append(violation);
                s.append(" but include site is inside ");
                s.append(container);
                s.append(" (which does not allow ");
                s.append(violation);
                s.append(")");
            },
            IncludeError::LoaderIo { path, message } => {
                s.append("loader error reading ");
                s.append(display_path(path).as_str());
                s.append(": ");
                s.append(message.as_str());
            },
            IncludeError::MissingSrc { .. } => {
                s.append("lex.include annotation missing required src= parameter");
            },
            IncludeError::HandlerFailed { label, code, message, .. } => {
                s.append("extension handler `");
                s.append(label.as_str());
                s.append("` failed (");
                s.append(code.as_str());
                s.append("): ");
                s.append(message.as_str());
            },
        }
        s
    }
}

} // verus!
