//! Lexical resolution of include targets and node-attached file references.
//!
//! Resolution never touches the filesystem. A path is taken apart into its
//! components ([`PathPart`]), `.` and `..` are resolved on that list
//! ([`normalized`]), and the result must keep the normalized root as a
//! prefix ([`check_within_root`]). Root-absolute targets (leading `/`)
//! resolve under the root; everything else resolves relative to the
//! authoring file's directory.
use vstd::prelude::*;
use std::path::{Path, PathBuf};
use super::errors::{path_text, IncludeError};
use super::loaders::{owned_path, path_of, paths_equal};
use crate::text::{chars_of, copy_chars, string_from_chars};

verus! {

/// One component of a path, as `Path::components` yields it. The named
/// kinds keep their own text as a one-component path.
#[derive(Debug)]
pub enum PathPart {
    /// A Windows path prefix such as `C:`.
    Prefix(PathBuf),
    /// The root directory separator.
    RootDir(PathBuf),
    /// `.`
    CurDir,
    /// `..`
    ParentDir,
    /// A plain file or directory name.
    Normal(PathBuf),
}

impl Clone for PathPart {
    fn clone(&self) -> (c: Self)
        ensures
            c == *self,
    {
        match self {
            PathPart::Prefix(p) => PathPart::Prefix(p.clone()),
            PathPart::RootDir(p) => PathPart::RootDir(p.clone()),
            PathPart::CurDir => PathPart::CurDir,
            PathPart::ParentDir => PathPart::ParentDir,
            PathPart::Normal(p) => PathPart::Normal(p.clone()),
        }
    }
}

/// One step of lexical normalization: `.` is dropped; `..` removes a
/// preceding name, and is kept when there is none to remove (at the start,
/// after a root, or after another kept `..`); anything else is appended.
pub open spec fn normalize_step(out: Seq<PathPart>, c: PathPart) -> Seq<PathPart> {
    match c {
        PathPart::ParentDir => if out.len() > 0 && out.last() is Normal {
            out.drop_last()
        } else {
            out.push(PathPart::ParentDir)
        },
        PathPart::CurDir => out,
        _ => out.push(c),
    }
}

/// The lexical normal form of a component list.
pub open spec fn normalized(p: Seq<PathPart>) -> Seq<PathPart>
    decreases p.len(),
{
    if p.len() == 0 {
        Seq::empty()
    } else {
        normalize_step(normalized(p.drop_last()), p.last())
    }
}

/// A list in normal form: no `.`, and no `..` right after a name.
pub open spec fn is_normal_form(q: Seq<PathPart>) -> bool {
    &&& forall|i: int| 0 <= i < q.len() ==> !(#[trigger] q[i] is CurDir)
    &&& forall|i: int| 0 < i < q.len() && #[trigger] q[i] is ParentDir ==> !(q[i - 1] is Normal)
}

/// A component list as `Path::components` produces it: a prefix only
/// first, and a root only first or right after the prefix.
pub open spec fn parts_wf(p: Seq<PathPart>) -> bool {
    &&& forall|i: int| 0 <= i < p.len() && #[trigger] p[i] is Prefix ==> i == 0
    &&& forall|i: int| 0 <= i < p.len() && #[trigger] p[i] is RootDir ==> i == 0 || (i == 1 && p[0] is Prefix)
}

/// Whether two components are equal as `Path` compares them.
pub open spec fn same_part(a: PathPart, b: PathPart) -> bool {
    match (a, b) {
        (PathPart::Prefix(x), PathPart::Prefix(y)) => paths_equal(x, y),
        (PathPart::RootDir(_), PathPart::RootDir(_)) => true,
        (PathPart::CurDir, PathPart::CurDir) => true,
        (PathPart::ParentDir, PathPart::ParentDir) => true,
        (PathPart::Normal(x), PathPart::Normal(y)) => paths_equal(x, y),
        _ => false,
    }
}

/// Whether the components `base` begin the components `p` (`Path::starts_with`).
pub open spec fn parts_start_with(p: Seq<PathPart>, base: Seq<PathPart>) -> bool {
    base.len() <= p.len() && forall|i: int| 0 <= i < base.len() ==> same_part(#[trigger] p[i], base[i])
}

/// The outcome of the root check on component lists.
pub enum PartsCheck {
    /// The normalized candidate, which lies under the root.
    Inside(Vec<PathPart>),
    /// The normalized candidate and the normalized root it escapes.
    Escapes(Vec<PathPart>, Vec<PathPart>),
}

/// The components of a path (`Path::components`), each kept with its own
/// text as a one-component path.
pub uninterp spec fn path_components(p: PathBuf) -> Seq<PathPart>;

/// The path spelled by a string (`PathBuf::from`).
pub uninterp spec fn path_from(s: Seq<char>) -> PathBuf;

/// `base` extended by `part` (`PathBuf::push`).
pub uninterp spec fn path_pushed(base: PathBuf, part: PathBuf) -> PathBuf;

/// `rel` appended to `base` (`Path::join`).
pub uninterp spec fn path_joined(base: PathBuf, rel: Seq<char>) -> PathBuf;

/// Whether the path spelled by a string is absolute (`Path::is_absolute`).
pub uninterp spec fn path_text_absolute(s: Seq<char>) -> bool;

/// The parent of a path, if it has one (`Path::parent`).
pub uninterp spec fn path_parent(p: PathBuf) -> Option<PathBuf>;

/// `Path::components`, each component kept with its own text as a
/// one-component path. Claims the named result, and that the list is well
/// formed as the documentation of `Component` gives it: a prefix can only
/// come first, and the root directory only first or right after a prefix.
#[verifier::external_body]
pub(crate) fn path_parts(p: &Path) -> (r: Vec<PathPart>)
    ensures
        r@ == path_components(path_of(p)),
        parts_wf(r@),
{
    p.components().map(|c| {
        let t = PathBuf::from(c.as_os_str());
        match c {
            std::path::Component::Prefix(_) => PathPart::Prefix(t),
            std::path::Component::RootDir => PathPart::RootDir(t),
            std::path::Component::CurDir => PathPart::CurDir,
            std::path::Component::ParentDir => PathPart::ParentDir,
            std::path::Component::Normal(_) => PathPart::Normal(t),
        }
    }).collect()
}

/// `PathBuf::push`: `buf` becomes the named extension of its old value by `part`.
#[verifier::external_body]
fn push_path(buf: &mut PathBuf, part: &PathBuf)
    ensures
        *final(buf) == path_pushed(*old(buf), *part),
{
    buf.push(part)
}

/// `PathBuf::from` on a string: the named path of the string. A path made
/// from a string displays as that string (a `str` is valid Unicode, so
/// `Path::display` loses nothing).
#[verifier::external_body]
pub(crate) fn path_from_str(s: &str) -> (r: PathBuf)
    ensures
        r == path_from(s@),
        path_text(r) == s@,
{
    PathBuf::from(s)
}

/// `Path::join`: the named join of `base` and `rel`.
#[verifier::external_body]
fn join_path(base: &Path, rel: &str) -> (r: PathBuf)
    ensures
        r == path_joined(path_of(base), rel@),
{
    base.join(rel)
}

/// `Path::is_absolute` for the path spelled `s`: the named answer.
#[verifier::external_body]
fn is_absolute_str(s: &str) -> (b: bool)
    ensures
        b == path_text_absolute(s@),
{
    Path::new(s).is_absolute()
}

/// `Path::parent`: the named parent of `p`.
#[verifier::external_body]
fn parent_of(p: &Path) -> (r: Option<&Path>)
    ensures
        match r {
            Some(q) => path_parent(path_of(p)) == Some(path_of(q)),
            None => path_parent(path_of(p)) is None,
        },
{
    p.parent()
}

/// Lexically normalize a component list: resolve `.` and `..` without the
/// filesystem. A `..` cancels a preceding name only; with nothing to cancel
/// it is kept, so `../../etc` never collapses to `etc`.
pub fn normalize_parts(parts: &Vec<PathPart>) -> (r: Vec<PathPart>)
    ensures
        r@ == normalized(parts@),
{
    let mut out: Vec<PathPart> = Vec::new();
    let mut i: usize = 0;
    while i < parts.len()
        invariant
            i <= parts@.len(),
            out@ == normalized(parts@.take(i as int)),
        decreases parts@.len() - i,
    {
        assert(parts@.take(i + 1).drop_last() =~= parts@.take(i as int));
        match &parts[i] {
            PathPart::ParentDir => {
                let can_pop = out.len() > 0 && match &out[out.len() - 1] {
                    PathPart::Normal(_) => true,
                    _ => false,
                };
                if can_pop {
                    out.pop();
                } else {
                    out.push(PathPart::ParentDir);
                }
            },
            PathPart::CurDir => {},
            other => {
                out.push(other.clone());
            },
        }
        i += 1;
    }
    assert(parts@.take(parts@.len() as int) =~= parts@);
    out
}

/// Whether two components are equal as `Path` compares them.
fn part_eq(a: &PathPart, b: &PathPart) -> (r: bool)
    ensures
        r == same_part(*a, *b),
{
    match (a, b) {
        (PathPart::Prefix(x), PathPart::Prefix(y)) => super::loaders::same_path(x, y),
        (PathPart::RootDir(_), PathPart::RootDir(_)) => true,
        (PathPart::CurDir, PathPart::CurDir) => true,
        (PathPart::ParentDir, PathPart::ParentDir) => true,
        (PathPart::Normal(x), PathPart::Normal(y)) => super::loaders::same_path(x, y),
        _ => false,
    }
}

/// Whether the components `base` begin the components `p`.
fn starts_with_parts(p: &Vec<PathPart>, base: &Vec<PathPart>) -> (r: bool)
    ensures
        r == parts_start_with(p@, base@),
{
    if base.len() > p.len() {
        return false;
    }
    let mut i: usize = 0;
    while i < base.len()
        invariant
            base@.len() <= p@.len(),
            i <= base@.len(),
            forall|j: int| 0 <= j < i ==> same_part(#[trigger] p@[j], base@[j]),
        decreases base@.len() - i,
    {
        if !part_eq(&p[i], &base[i]) {
            return false;
        }
        i += 1;
    }
    true
}

/// Normalize a candidate and a root, and check that the candidate stays
/// under the root (the normalized root's components begin it).
pub fn check_within_root(candidate: &Vec<PathPart>, root: &Vec<PathPart>) -> (r: PartsCheck)
    ensures
        ({
            let n = normalized(candidate@);
            let rn = normalized(root@);
            match r {
                PartsCheck::Inside(p) => parts_start_with(n, rn) && p@ == n,
                PartsCheck::Escapes(p, q) => !parts_start_with(n, rn) && p@ == n && q@ == rn,
            }
        }),
{
    let n = normalize_parts(candidate);
    let rn = normalize_parts(root);
    if starts_with_parts(&n, &rn) {
        PartsCheck::Inside(n)
    } else {
        PartsCheck::Escapes(n, rn)
    }
}

/// The path pushed for one component.
pub open spec fn part_path_of(part: PathPart) -> PathBuf {
    match part {
        PathPart::Prefix(p) => p,
        PathPart::RootDir(p) => p,
        PathPart::CurDir => path_from("."@),
        PathPart::ParentDir => path_from(".."@),
        PathPart::Normal(p) => p,
    }
}

/// The path built by pushing each component in turn onto the empty path.
pub open spec fn built_path(parts: Seq<PathPart>) -> PathBuf
    decreases parts.len(),
{
    if parts.len() == 0 {
        path_from(""@)
    } else {
        path_pushed(built_path(parts.drop_last()), part_path_of(parts.last()))
    }
}

/// The path pushed for one component.
fn part_path(part: &PathPart) -> (r: PathBuf)
    ensures
        r == part_path_of(*part),
        match *part {
            PathPart::CurDir => path_text(r) == "."@,
            PathPart::ParentDir => path_text(r) == ".."@,
            _ => true,
        },
{
    match part {
        PathPart::Prefix(p) => p.clone(),
        PathPart::RootDir(p) => p.clone(),
        PathPart::CurDir => path_from_str("."),
        PathPart::ParentDir => path_from_str(".."),
        PathPart::Normal(p) => p.clone(),
    }
}

/// Build a path by pushing each component in turn.
fn path_of_parts(parts: &Vec<PathPart>) -> (r: PathBuf)
    ensures
        r == built_path(parts@),
{
    let mut out = path_from_str("");
    let mut i: usize = 0;
    assert(parts@.take(0) =~= Seq::<PathPart>::empty());
    while i < parts.len()
        invariant
            i <= parts@.len(),
            out == built_path(parts@.take(i as int)),
        decreases parts@.len() - i,
    {
        assert(parts@.take(i + 1).drop_last() =~= parts@.take(i as int));
        let p = part_path(&parts[i]);
        push_path(&mut out, &p);
        i += 1;
    }
    assert(parts@.take(parts@.len() as int) =~= parts@);
    out
}

/// Lexical (no-filesystem) path normalization: resolve `.` and `..`
/// components, keeping a `..` that has no name before it to cancel.
pub fn lexical_normalize(p: &Path) -> (r: PathBuf)
    ensures
        r == built_path(normalized(path_components(path_of(p)))),
{
    let parts = path_parts(p);
    let n = normalize_parts(&parts);
    path_of_parts(&n)
}

/// Whether `s` begins with `/`.
pub open spec fn root_absolute(s: Seq<char>) -> bool {
    s.len() > 0 && s[0] == '/'
}

/// The path a target names before normalization: under the root for a
/// leading `/`, else joined to the host directory.
pub open spec fn candidate_path(src: Seq<char>, host: PathBuf, root: PathBuf) -> PathBuf {
    if root_absolute(src) { path_joined(root, src.drop_first()) } else { path_joined(host, src) }
}

/// The normalized components of the candidate path.
pub open spec fn resolved_parts(src: Seq<char>, host: PathBuf, root: PathBuf) -> Seq<PathPart> {
    normalized(path_components(candidate_path(src, host, root)))
}

/// The normalized components of the root.
pub open spec fn root_parts(root: PathBuf) -> Seq<PathPart> {
    normalized(path_components(root))
}

/// How a target resolves from `host` under `root`: a target without a
/// leading `/` that the platform reads as absolute is refused; otherwise the
/// normalized candidate must begin with the normalized root, and is built
/// back into a path; if it does not, the target escapes the root.
pub open spec fn resolved(src: Seq<char>, host: PathBuf, root: PathBuf) -> Result<PathBuf, IncludeError> {
    if !root_absolute(src) && path_text_absolute(src) {
        Err(IncludeError::AbsolutePath { path: path_from(src) })
    } else {
        let n = resolved_parts(src, host, root);
        let rn = root_parts(root);
        if parts_start_with(n, rn) {
            Ok(built_path(n))
        } else {
            Err(IncludeError::RootEscape { path: built_path(n), root: built_path(rn) })
        }
    }
}

/// A resolved path never climbs out of its root: when the normalized root
/// ends in a directory name, the resolved components after the root hold
/// neither `.` nor `..`.
pub open spec fn stays_under_root(src: Seq<char>, host: PathBuf, root: PathBuf) -> bool {
    let n = resolved_parts(src, host, root);
    let rn = root_parts(root);
    rn.len() > 0 && rn.last() is Normal ==> forall|j: int| rn.len() <= j < n.len()
        ==> !(#[trigger] n[j] is ParentDir) && !(n[j] is CurDir)
}

/// Resolve an include target from the directory `host_dir` under `root`.
/// A leading `/` means "from the root"; any other target the host platform
/// treats as absolute is refused with `AbsolutePath`; the normalized result
/// must stay under the normalized root, else `RootEscape`.
pub(crate) fn resolve_path(src: &str, host_dir: &Path, root: &Path) -> (r: Result<PathBuf, IncludeError>)
    ensures
        r == resolved(src@, path_of(host_dir), path_of(root)),
        r is Ok ==> stays_under_root(src@, path_of(host_dir), path_of(root)),
{
    let c = chars_of(src);
    let candidate = if c.len() > 0 && c[0] == '/' {
        let rest = copy_chars(&c, 1, c.len());
        let rel = string_from_chars(rest.as_slice());
        assert(rel@ =~= src@.drop_first());
        join_path(root, rel.as_str())
    } else {
        if is_absolute_str(src) {
            return Err(IncludeError::AbsolutePath { path: path_from_str(src) });
        }
        join_path(host_dir, src)
    };
    let candidate_parts = path_parts(candidate.as_path());
    let root_parts = path_parts(root);
    proof {
        if parts_start_with(normalized(candidate_parts@), normalized(root_parts@))
            && normalized(root_parts@).len() > 0 && normalized(root_parts@).last() is Normal {
            lemma_inside_root_never_climbs(candidate_parts@, root_parts@);
        }
    }
    match check_within_root(&candidate_parts, &root_parts) {
        PartsCheck::Inside(n) => Ok(path_of_parts(&n)),
        PartsCheck::Escapes(n, rn) => Err(IncludeError::RootEscape { path: path_of_parts(&n), root: path_of_parts(&rn) }),
    }
}

/// The directory relative targets resolve from: the parent of the
/// authoring file, or the root when there is no origin (or no parent).
pub open spec fn host_dir_of(origin: Option<&Path>, root: PathBuf) -> PathBuf {
    match origin {
        Some(p) => match path_parent(path_of(p)) {
            Some(d) => d,
            None => root,
        },
        None => root,
    }
}

/// Resolve a file-reference target the way include targets resolve:
/// relative targets from the directory of `ref_origin` (the authoring file),
/// or from `root` when there is no origin; root-absolute targets under
/// `root`. The result is lexically normalized and must stay under `root`.
pub fn resolve_file_reference(target: &str, ref_origin: Option<&Path>, root: &Path) -> (r: Result<PathBuf, IncludeError>)
    ensures
        r == resolved(target@, host_dir_of(ref_origin, path_of(root)), path_of(root)),
        r is Ok ==> stays_under_root(target@, host_dir_of(ref_origin, path_of(root)), path_of(root)),
{
    let parent = match ref_origin {
        Some(p) => parent_of(p),
        None => None,
    };
    let host_dir = match parent {
        Some(d) => owned_path(d),
        None => owned_path(root),
    };
    resolve_path(target, host_dir.as_path(), root)
}

/// Normalizing gives a list in normal form.
pub proof fn lemma_normalized_is_normal_form(p: Seq<PathPart>)
    ensures
        is_normal_form(normalized(p)),
    decreases p.len(),
{
    if p.len() > 0 {
        lemma_normalized_is_normal_form(p.drop_last());
        let out = normalized(p.drop_last());
        let q = normalized(p);
        assert(q == normalize_step(out, p.last()));
        if p.last() is ParentDir && out.len() > 0 && out.last() is Normal {
            assert forall|i: int| 0 < i < q.len() && #[trigger] q[i] is ParentDir implies !(q[i - 1] is Normal) by {
                assert(q[i] == out[i]);
                assert(q[i - 1] == out[i - 1]);
            }
        } else if !(p.last() is CurDir) {
            assert forall|i: int| 0 < i < q.len() && #[trigger] q[i] is ParentDir implies !(q[i - 1] is Normal) by {
                if i < out.len() {
                    assert(q[i] == out[i]);
                    assert(q[i - 1] == out[i - 1]);
                } else {
                    assert(q[i - 1] == out.last());
                }
            }
            assert forall|i: int| 0 <= i < q.len() implies !(#[trigger] q[i] is CurDir) by {
                if i < out.len() {
                    assert(q[i] == out[i]);
                }
            }
        }
    }
}

/// A list in normal form is its own normal form.
pub proof fn lemma_normal_form_fixed(q: Seq<PathPart>)
    requires
        is_normal_form(q),
    ensures
        normalized(q) == q,
    decreases q.len(),
{
    if q.len() > 0 {
        let d = q.drop_last();
        assert forall|i: int| 0 < i < d.len() && #[trigger] d[i] is ParentDir implies !(d[i - 1] is Normal) by {
            assert(d[i] == q[i]);
            assert(d[i - 1] == q[i - 1]);
        }
        assert forall|i: int| 0 <= i < d.len() implies !(#[trigger] d[i] is CurDir) by {
            assert(d[i] == q[i]);
        }
        lemma_normal_form_fixed(d);
        assert(!(q.last() is CurDir)) by {
            assert(q[q.len() - 1] == q.last());
        }
        if q.last() is ParentDir && q.len() > 1 {
            assert(q[q.len() - 2] == d.last());
        }
        assert(d.push(q.last()) =~= q);
    }
}

/// Normalizing twice is normalizing once.
pub proof fn lemma_normalize_idempotent(p: Seq<PathPart>)
    ensures
        normalized(normalized(p)) == normalized(p),
{
    lemma_normalized_is_normal_form(p);
    lemma_normal_form_fixed(normalized(p));
}

/// Normalizing keeps a component list well formed.
pub proof fn lemma_normalized_wf(p: Seq<PathPart>)
    requires
        parts_wf(p),
    ensures
        parts_wf(normalized(p)),
    decreases p.len(),
{
    if p.len() > 0 {
        let d = p.drop_last();
        assert forall|i: int| 0 <= i < d.len() && #[trigger] d[i] is Prefix implies i == 0 by {
            assert(d[i] == p[i]);
        }
        assert forall|i: int| 0 <= i < d.len() && #[trigger] d[i] is RootDir implies i == 0 || (i == 1 && d[0] is Prefix) by {
            assert(d[i] == p[i]);
            assert(d[0] == p[0]);
        }
        lemma_normalized_wf(d);
        let out = normalized(d);
        let q = normalized(p);
        let c = p.last();
        assert(c == p[p.len() - 1]);
        if c is Prefix {
            assert(p.len() - 1 == 0);
            assert(d.len() == 0);
        }
        if c is RootDir && p.len() - 1 == 1 {
            assert(d =~= seq![p[0]]);
            assert(d.drop_last() =~= Seq::<PathPart>::empty());
            assert(out =~= seq![p[0]]);
        }
        if c is RootDir && p.len() - 1 == 0 {
            assert(d.len() == 0);
        }
        if c is ParentDir && out.len() > 0 && out.last() is Normal {
            assert forall|i: int| 0 <= i < q.len() && #[trigger] q[i] is Prefix implies i == 0 by {
                assert(q[i] == out[i]);
            }
            assert forall|i: int| 0 <= i < q.len() && #[trigger] q[i] is RootDir implies i == 0 || (i == 1 && q[0] is Prefix) by {
                assert(q[i] == out[i]);
                assert(q[0] == out[0]);
            }
        } else if !(c is CurDir) {
            assert forall|i: int| 0 <= i < q.len() && #[trigger] q[i] is Prefix implies i == 0 by {
                if i < out.len() {
                    assert(q[i] == out[i]);
                }
            }
            assert forall|i: int| 0 <= i < q.len() && #[trigger] q[i] is RootDir implies i == 0 || (i == 1 && q[0] is Prefix) by {
                if i < out.len() {
                    assert(q[i] == out[i]);
                    assert(q[0] == out[0]);
                } else if out.len() == 1 {
                    assert(q[0] == out[0]);
                }
            }
        }
    }
}

/// In a well-formed list in normal form, no `..` follows a name.
proof fn lemma_no_parent_after_name(q: Seq<PathPart>, k: int, j: int)
    requires
        is_normal_form(q),
        parts_wf(q),
        0 <= k < j < q.len(),
        q[k] is Normal,
    ensures
        !(q[j] is ParentDir),
    decreases j - k,
{
    if q[j] is ParentDir {
        assert(!(q[j - 1] is Normal));
        if j - 1 > k {
            lemma_no_parent_after_name(q, k, j - 1);
            assert(!(q[j - 1] is CurDir));
            if q[j - 1] is Prefix {
                assert(j - 1 == 0);
            } else {
                assert(q[j - 1] is RootDir);
                assert(j - 1 == 1 && q[0] is Prefix);
            }
        }
    }
}

/// A target that passes the root check never climbs back out of the root:
/// when the normalized root ends in a directory name, the resolved
/// components after the root hold neither `.` nor `..`.
pub proof fn lemma_inside_root_never_climbs(candidate: Seq<PathPart>, root: Seq<PathPart>)
    requires
        parts_wf(candidate),
        normalized(root).len() > 0,
        normalized(root).last() is Normal,
        parts_start_with(normalized(candidate), normalized(root)),
    ensures
        forall|j: int| normalized(root).len() <= j < normalized(candidate).len()
            ==> !(#[trigger] normalized(candidate)[j] is ParentDir) && !(normalized(candidate)[j] is CurDir),
{
    let n = normalized(candidate);
    let rn = normalized(root);
    lemma_normalized_is_normal_form(candidate);
    lemma_normalized_wf(candidate);
    let k = rn.len() - 1;
    assert(same_part(n[k], rn[k]));
    assert(rn[k] == rn.last());
    assert(n[k] is Normal);
    assert forall|j: int| rn.len() <= j < n.len() implies !(#[trigger] n[j] is ParentDir) && !(n[j] is CurDir) by {
        lemma_no_parent_after_name(n, k, j);
    }
}

} // verus!
