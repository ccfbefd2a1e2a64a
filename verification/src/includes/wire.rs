//! Mapping a handler failure back onto the most specific include error.
//! Codes `-32000..=-32005` of the `lex.include` handler translate back to
//! their own variants; any other failure is a `HandlerFailed`.
use vstd::prelude::*;
use super::errors::{load_error_text, path_text, IncludeError, LoadError};
use super::paths::{path_from, path_from_str};
use crate::builtins::handler::{data_lookup, data_str, data_str_of, data_u64, data_u64_of, HandlerError};
use crate::builtins::include_handler::{
    include_handler_spec, load_handler_spec, CODE_ABSOLUTE_PATH, CODE_IO, CODE_MISSING_SRC,
    CODE_NOT_FOUND, CODE_OUTSIDE_ROOT, CODE_TOO_LARGE,
};
use crate::location::Range;
use crate::text::{decimal, decimal_string};

verus! {

/// The decimal text of a signed number.
pub open spec fn signed_decimal(n: int) -> Seq<char> {
    if n < 0 { "-"@ + decimal((-n) as nat) } else { decimal(n as nat) }
}

/// The string under `key`, or the empty string.
pub open spec fn str_or_empty(data: Option<Vec<(String, crate::builtins::handler::DataValue)>>, key: Seq<char>) -> Seq<char> {
    match data_str_of(data, key) {
        Some(s) => s,
        None => Seq::empty(),
    }
}

/// The number under `key`, or zero.
pub open spec fn u64_or_zero(data: Option<Vec<(String, crate::builtins::handler::DataValue)>>, key: Seq<char>) -> u64 {
    match data_u64_of(data, key) {
        Some(n) => n,
        None => 0,
    }
}

/// Whether `r` is a `HandlerFailed` error for this site, label, code and message.
pub open spec fn handler_failed_is(r: IncludeError, site: Range, label: Seq<char>, code: Seq<char>, message: Seq<char>) -> bool {
    r matches IncludeError::HandlerFailed { include_site, label: l, code: c, message: m }
        && include_site == site && l@ == label && c@ == code && m@ == message
}

/// The include error a handler failure maps back to.
pub open spec fn handler_include_spec(h: HandlerError, label: Seq<char>, site: Range, r: IncludeError) -> bool {
    match h {
        HandlerError::Custom { code, message, data } => {
            let p = str_or_empty(data, "path"@);
            if code == CODE_NOT_FOUND {
                r matches IncludeError::NotFound { include_site, path } && include_site == site && path == path_from(p)
                    && path_text(path) == p
            } else if code == CODE_OUTSIDE_ROOT {
                r matches IncludeError::RootEscape { path, root } && path == path_from(p) && path_text(path) == p
                    && root == path_from(str_or_empty(data, "root"@)) && path_text(root) == str_or_empty(data, "root"@)
            } else if code == CODE_TOO_LARGE {
                r matches IncludeError::FileTooLarge { include_site, path, size, limit } && include_site == site
                    && path == path_from(p) && path_text(path) == p && size == u64_or_zero(data, "size"@) && limit == u64_or_zero(data, "limit"@)
            } else if code == CODE_ABSOLUTE_PATH {
                r matches IncludeError::AbsolutePath { path } && path == path_from(p) && path_text(path) == p
            } else if code == CODE_IO {
                r matches IncludeError::LoaderIo { path, message: m } && path == path_from(p) && path_text(path) == p
                    && m@ == message@
            } else if code == CODE_MISSING_SRC {
                r matches IncludeError::MissingSrc { include_site } && include_site == site
            } else {
                handler_failed_is(r, site, label, "handler.custom("@ + signed_decimal(code as int) + ")"@, message@)
            }
        },
        HandlerError::Internal { message } => handler_failed_is(r, site, label, "handler.internal"@, message@),
        HandlerError::Unsupported { detail } => handler_failed_is(r, site, label, "handler.unsupported"@, detail@),
    }
}

/// The decimal text of a signed 32-bit number.
fn signed_decimal_string(n: i32) -> (s: String)
    ensures
        s@ == signed_decimal(n as int),
{
    if n < 0 {
        let m: i64 = -(n as i64);
        let mut s = String::new();
        s.append("-");
        s.append(decimal_string(m as u64).as_str());
        s
    } else {
        decimal_string(n as u64)
    }
}

/// The path stored under `key`, or the empty path.
fn path_or_empty(data: &Option<Vec<(String, crate::builtins::handler::DataValue)>>, key: &str) -> (p: std::path::PathBuf)
    ensures
        p == path_from(str_or_empty(*data, key@)),
        path_text(p) == str_or_empty(*data, key@),
{
    match data_str(data, key) {
        Some(s) => path_from_str(s.as_str()),
        None => {
            let p = path_from_str("");
            proof {
                reveal_strlit("");
                assert(""@ =~= Seq::<char>::empty());
            }
            p
        },
    }
}

/// A `HandlerFailed` error for this site, label, code and message.
fn handler_failed(include_site: &Range, label: &str, code: String, message: String) -> (r: IncludeError)
    ensures
        handler_failed_is(r, *include_site, label@, code@, message@),
{
    IncludeError::HandlerFailed { include_site: include_site.clone(), label: label.to_owned(), code, message }
}

/// Map a handler failure onto the most specific include error: the
/// `lex.include` codes translate back to their own variants (paths and
/// sizes read from the failure's data, empty or zero when absent); any
/// other failure becomes `HandlerFailed`, attributed to `label`.
pub fn handler_error_to_include_error(err: &HandlerError, label: &str, include_site: &Range) -> (r: IncludeError)
    ensures
        handler_include_spec(*err, label@, *include_site, r),
{
    match err {
        HandlerError::Custom { code, message, data } => {
            let code = *code;
            if code == CODE_NOT_FOUND {
                IncludeError::NotFound { include_site: include_site.clone(), path: path_or_empty(data, "path") }
            } else if code == CODE_OUTSIDE_ROOT {
                IncludeError::RootEscape { path: path_or_empty(data, "path"), root: path_or_empty(data, "root") }
            } else if code == CODE_TOO_LARGE {
                let size = match data_u64(data, "size") {
                    Some(n) => n,
                    None => 0,
                };
                let limit = match data_u64(data, "limit") {
                    Some(n) => n,
                    None => 0,
                };
                IncludeError::FileTooLarge {
                    include_site: include_site.clone(),
                    path: path_or_empty(data, "path"),
                    size,
                    limit,
                }
            } else if code == CODE_ABSOLUTE_PATH {
                IncludeError::AbsolutePath { path: path_or_empty(data, "path") }
            } else if code == CODE_IO {
                IncludeError::LoaderIo { path: path_or_empty(data, "path"), message: message.clone() }
            } else if code == CODE_MISSING_SRC {
                IncludeError::MissingSrc { include_site: include_site.clone() }
            } else {
                let mut c = String::new();
                c.append("handler.custom(");
                c.append(signed_decimal_string(code).as_str());
                c.append(")");
                handler_failed(include_site, label, c, message.clone())
            }
        },
        HandlerError::Internal { message } => handler_failed(include_site, label, "handler.internal".to_owned(), message.clone()),
        HandlerError::Unsupported { detail } => handler_failed(include_site, label, "handler.unsupported".to_owned(), detail.clone()),
    }
}

/// A load error survives the trip through the handler protocol: reported
/// by the `lex.include` handler and mapped back, it becomes the include
/// error of the same kind, with the same path text, the same sizes, and
/// (for I/O errors) the load error's message.
pub proof fn lemma_load_error_round_trip(e: LoadError, h: HandlerError, label: Seq<char>, site: Range, r: IncludeError)
    requires
        load_handler_spec(e, h),
        handler_include_spec(h, label, site, r),
    ensures
        e matches LoadError::NotFound { path } ==> r matches IncludeError::NotFound { include_site, path: p }
            && include_site == site && path_text(p) == path_text(path),
        e matches LoadError::OutsideRoot { path, root } ==> r matches IncludeError::RootEscape { path: p, root: q }
            && path_text(p) == path_text(path) && path_text(q) == path_text(root),
        e matches LoadError::TooLarge { path, size, limit } ==> r matches IncludeError::FileTooLarge {
            include_site,
            path: p,
            size: s,
            limit: l,
        } && include_site == site && path_text(p) == path_text(path) && s == size && l == limit,
        e matches LoadError::Io { path, .. } ==> r matches IncludeError::LoaderIo { path: p, message }
            && path_text(p) == path_text(path) && message@ == load_error_text(e),
{
    reveal_strlit("path");
    reveal_strlit("root");
    reveal_strlit("size");
    reveal_strlit("limit");
    reveal_with_fuel(data_lookup, 4);
    assert("path"@[0] != "root"@[0] && "path"@[0] != "size"@[0] && "path"@[0] != "limit"@[0]);
    assert("size"@[0] != "limit"@[0]);
    if let HandlerError::Custom { data: Some(d), .. } = h {
        if d@.len() >= 2 {
            assert(d@.drop_first()[0] == d@[1]);
        }
        if d@.len() >= 3 {
            assert(d@.drop_first().drop_first()[0] == d@[2]);
        }
    }
}

/// A path-resolution error that the handler reports under its own code
/// (an absolute `src` or a root escape) maps back to the same kind of
/// error with the same path texts.
pub proof fn lemma_path_error_round_trip(e: IncludeError, h: HandlerError, label: Seq<char>, site: Range, r: IncludeError)
    requires
        e is AbsolutePath || e is RootEscape,
        include_handler_spec(e, h),
        handler_include_spec(h, label, site, r),
    ensures
        match e {
            IncludeError::AbsolutePath { path } => r matches IncludeError::AbsolutePath { path: p }
                && path_text(p) == path_text(path),
            IncludeError::RootEscape { path, root } => r matches IncludeError::RootEscape { path: p, root: q }
                && path_text(p) == path_text(path) && path_text(q) == path_text(root),
            _ => false,
        },
{
    reveal_strlit("path");
    reveal_strlit("root");
    reveal_with_fuel(data_lookup, 3);
    assert("path"@[0] != "root"@[0]);
    if let HandlerError::Custom { data: Some(d), .. } = h {
        if d@.len() >= 2 {
            assert(d@.drop_first()[0] == d@[1]);
        }
    }
}

} // verus!
