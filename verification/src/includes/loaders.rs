//! Pluggable source-text loaders: the [`Loader`] trait, the in-memory loader
//! used by tests, and the admission rules of the filesystem loader.
use vstd::prelude::*;
use std::path::{Path, PathBuf};
use super::errors::LoadError;

verus! {

/// Whether two paths are equal (`PathBuf == PathBuf`, component-wise).
pub uninterp spec fn paths_equal(a: PathBuf, b: PathBuf) -> bool;

/// Whether `p` starts with the components of `base` (`Path::starts_with`).
pub uninterp spec fn path_starts_with(p: PathBuf, base: PathBuf) -> bool;

/// `PathBuf == PathBuf`: the named comparison; a path equals itself (std
/// documents `Eq` for `Path`).
#[verifier::external_body]
pub(crate) fn same_path(a: &PathBuf, b: &PathBuf) -> (r: bool)
    ensures
        r == paths_equal(*a, *b),
        *a == *b ==> r,
{
    a == b
}

/// `Path::starts_with`.
#[verifier::external_body]
pub(crate) fn starts_with_path(p: &PathBuf, base: &PathBuf) -> (r: bool)
    ensures
        r == path_starts_with(*p, *base),
{
    p.starts_with(base)
}

/// The owned path a borrowed path is (`Path::to_path_buf`).
pub uninterp spec fn path_of(p: &Path) -> PathBuf;

/// `Path::to_path_buf`: the owned copy of a borrowed path, which is
/// `path_of(p)`.
#[verifier::external_body]
pub(crate) fn owned_path(p: &Path) -> (r: PathBuf)
    ensures
        r == path_of(p),
{
    p.to_path_buf()
}

/// A pluggable source-text loader: decides where the text of a resolved
/// include path comes from, and which canonical identity it has.
pub trait Loader {
    /// Whether `r` is an outcome this loader gives when asked for `path`. A
    /// loader that describes nothing of its outcomes keeps every one possible.
    open spec fn loads(&self, path: PathBuf, r: Result<LoadedFile, LoadError>) -> bool {
        true
    }

    /// Load the text at `path`, with the loader's canonical identity for it.
    fn load(&self, path: &Path) -> (r: Result<LoadedFile, LoadError>)
        ensures
            self.loads(path_of(path), r),
    ;
}

/// The result of a successful [`Loader::load`].
#[derive(Debug, Clone)]
pub struct LoadedFile {
    /// The file's source text.
    pub source: String,
    /// The loader's authoritative identity for the resource.
    pub canonical_path: PathBuf,
}

/// Index of the first entry of `files` whose path equals `key`, if any.
pub open spec fn find_key(files: Seq<(PathBuf, String)>, key: PathBuf) -> Option<int>
    decreases files.len(),
{
    if files.len() == 0 {
        None
    } else {
        match find_key(files.drop_last(), key) {
            Some(i) => Some(i),
            None => if paths_equal(files.last().0, key) {
                Some(files.len() - 1)
            } else {
                None
            },
        }
    }
}

/// The entries after inserting `contents` at `key`: the value of an entry
/// with an equal key is replaced (its key kept), else the pair is appended.
pub open spec fn entries_with(files: Seq<(PathBuf, String)>, key: PathBuf, contents: String) -> Seq<(PathBuf, String)> {
    match find_key(files, key) {
        Some(i) => files.update(i, (files[i].0, contents)),
        None => files.push((key, contents)),
    }
}

/// The entries after registering the texts `vs` at the paths `ks`, pair by
/// pair, into an empty loader.
pub open spec fn inserted_all(ks: Seq<PathBuf>, vs: Seq<String>) -> Seq<(PathBuf, String)>
    decreases ks.len(),
{
    if ks.len() == 0 || vs.len() != ks.len() {
        Seq::empty()
    } else {
        entries_with(inserted_all(ks.drop_last(), vs.drop_last()), ks.last(), vs.last())
    }
}

/// In-memory [`Loader`], keyed by path; used to back tests.
pub struct MemoryLoader {
    files: Vec<(PathBuf, String)>,
}

impl MemoryLoader {
    /// The registered `(path, text)` entries, in insertion order.
    pub closed spec fn entries(&self) -> Seq<(PathBuf, String)> {
        self.files@
    }

    /// An empty loader.
    pub fn new() -> (l: Self)
        ensures
            l.entries() == Seq::<(PathBuf, String)>::empty(),
    {
        MemoryLoader { files: Vec::new() }
    }

    /// Register `contents` at `path` (replacing the text of an equal path).
    /// A read gives back what the write wrote: looking `path` up afterwards
    /// finds an entry holding `contents`.
    pub fn insert_entry(&mut self, path: PathBuf, contents: String)
        ensures
            final(self).entries() == entries_with(old(self).entries(), path, contents),
            find_key(final(self).entries(), path) matches Some(i) && final(self).entries()[i].1 == contents,
    {
        proof {
            lemma_find_key_bounds(self.files@, path);
        }
        let ghost g = contents;
        match self.position(&path) {
            Some(i) => {
                let key = self.files[i].0.clone();
                proof {
                    lemma_find_key_update(old(self).files@, path, i as int, g);
                }
                self.files.set(i, (key, contents));
            },
            None => {
                // A path equals itself, so the appended entry is found again.
                let found_again = same_path(&path, &path);
                assert(found_again && paths_equal(path, path));
                proof {
                    lemma_lookup_after_insert(old(self).files@, path, g);
                }
                self.files.push((path, contents));
            },
        }
    }

    /// Register a file at `path` with the given source text.
    pub fn insert<P: Into<PathBuf>, S: Into<String>>(&mut self, path: P, contents: S) -> (r: &mut Self)
        ensures
            exists|k: PathBuf, v: String| r.entries() == #[trigger] entries_with(old(self).entries(), k, v)
                && (<P as vstd::std_specs::convert::IntoSpec<PathBuf>>::obeys_into_spec()
                    ==> k == <P as vstd::std_specs::convert::IntoSpec<PathBuf>>::into_spec(path))
                && (<S as vstd::std_specs::convert::IntoSpec<String>>::obeys_into_spec()
                    ==> v == <S as vstd::std_specs::convert::IntoSpec<String>>::into_spec(contents))
                && (find_key(r.entries(), k) matches Some(i) && r.entries()[i].1 == v),
            *final(self) == *final(r),
    {
        let k: PathBuf = path.into();
        let v: String = contents.into();
        let ghost gk = k;
        let ghost gv = v;
        self.insert_entry(k, v);
        assert(self.entries() == entries_with(old(self).entries(), gk, gv));
        self
    }

    /// A loader holding the given `(path, contents)` pairs, inserted in order:
    /// its entries are those that registering each pair's converted path and
    /// text, one after another, gives.
    pub fn from_pairs<P: Into<PathBuf>, S: Into<String>>(pairs: Vec<(P, S)>) -> (l: Self)
        ensures
            exists|ks: Seq<PathBuf>, vs: Seq<String>| ks.len() == pairs@.len() && vs.len() == pairs@.len()
                && l.entries() == #[trigger] inserted_all(ks, vs)
                && forall|i: int| 0 <= i < pairs@.len() ==> (
                    (<P as vstd::std_specs::convert::IntoSpec<PathBuf>>::obeys_into_spec() ==> ks[i] == <P as vstd::std_specs::convert::IntoSpec<PathBuf>>::into_spec((#[trigger] pairs@[i]).0))
                    && (<S as vstd::std_specs::convert::IntoSpec<String>>::obeys_into_spec() ==> vs[i] == <S as vstd::std_specs::convert::IntoSpec<String>>::into_spec(pairs@[i].1))),
            l.entries().len() <= pairs@.len(),
    {
        let mut loader = Self::new();
        let ghost mut ks: Seq<PathBuf> = Seq::empty();
        let ghost mut vs: Seq<String> = Seq::empty();
        for (path, contents) in it: pairs
            invariant
                loader.entries().len() <= it.index(),
                ks.len() == it.index(),
                vs.len() == it.index(),
                it.seq() == pairs@,
                forall|i: int| 0 <= i < it.index() ==> (
                    (<P as vstd::std_specs::convert::IntoSpec<PathBuf>>::obeys_into_spec() ==> ks[i] == <P as vstd::std_specs::convert::IntoSpec<PathBuf>>::into_spec((#[trigger] pairs@[i]).0))
                    && (<S as vstd::std_specs::convert::IntoSpec<String>>::obeys_into_spec() ==> vs[i] == <S as vstd::std_specs::convert::IntoSpec<String>>::into_spec(pairs@[i].1))),
                loader.entries() == inserted_all(ks, vs),
        {
            let k: PathBuf = path.into();
            let v: String = contents.into();
            proof {
                lemma_find_key_bounds(loader.entries(), k);
            }
            let ghost gk = k;
            let ghost gv = v;
            loader.insert_entry(k, v);
            proof {
                assert(ks.push(gk).drop_last() =~= ks);
                assert(vs.push(gv).drop_last() =~= vs);
                ks = ks.push(gk);
                vs = vs.push(gv);
            }
        }
        assert(inserted_all(ks, vs) == loader.entries());
        loader
    }

    /// Index of the first entry whose path equals `key`.
    fn position(&self, key: &PathBuf) -> (r: Option<usize>)
        ensures
            match r {
                Some(i) => find_key(self.files@, *key) == Some(i as int),
                None => find_key(self.files@, *key) is None,
            },
    {
        let mut i: usize = 0;
        while i < self.files.len()
            invariant
                i <= self.files@.len(),
                find_key(self.files@.take(i as int), *key) is None,
            decreases self.files@.len() - i,
        {
            proof {
                assert(self.files@.take(i + 1).drop_last() =~= self.files@.take(i as int));
            }
            if same_path(&self.files[i].0, key) {
                proof {
                    lemma_find_key_prefix(self.files@, *key, i + 1);
                }
                return Some(i);
            }
            i += 1;
        }
        assert(self.files@.take(self.files@.len() as int) =~= self.files@);
        None
    }

    /// Look up `key`: the text of the first equal entry.
    pub fn lookup(&self, key: &PathBuf) -> (r: Option<String>)
        ensures
            match find_key(self.entries(), *key) {
                Some(i) => r == Some(self.entries()[i].1),
                None => r is None,
            },
    {
        proof {
            lemma_find_key_bounds(self.files@, *key);
        }
        match self.position(key) {
            Some(i) => Some(self.files[i].1.clone()),
            None => None,
        }
    }
}

/// A found index lies within the entries.
proof fn lemma_find_key_bounds(files: Seq<(PathBuf, String)>, key: PathBuf)
    ensures
        find_key(files, key) matches Some(i) ==> 0 <= i < files.len(),
    decreases files.len(),
{
    if files.len() > 0 {
        lemma_find_key_bounds(files.drop_last(), key);
    }
}

/// `find_key` on a prefix that already holds a match agrees with the whole.
proof fn lemma_find_key_prefix(files: Seq<(PathBuf, String)>, key: PathBuf, n: int)
    requires
        0 <= n <= files.len(),
        find_key(files.take(n), key) is Some,
    ensures
        find_key(files, key) == find_key(files.take(n), key),
    decreases files.len() - n,
{
    if n < files.len() {
        assert(files.take(n + 1).drop_last() =~= files.take(n));
        lemma_find_key_prefix(files, key, n + 1);
    } else {
        assert(files.take(n) =~= files);
    }
}

/// `find_key` is unchanged by replacing the value of an entry.
proof fn lemma_find_key_update(files: Seq<(PathBuf, String)>, key: PathBuf, i: int, contents: String)
    requires
        0 <= i < files.len(),
    ensures
        find_key(files.update(i, (files[i].0, contents)), key) == find_key(files, key),
    decreases files.len(),
{
    let u = files.update(i, (files[i].0, contents));
    if i < files.len() - 1 {
        assert(u.drop_last() =~= files.drop_last().update(i, (files[i].0, contents)));
        lemma_find_key_update(files.drop_last(), key, i, contents);
    } else {
        assert(u.drop_last() =~= files.drop_last());
    }
}

/// After registering `contents` at a key that equals itself, looking the
/// key up finds an entry holding `contents`.
proof fn lemma_lookup_after_insert(files: Seq<(PathBuf, String)>, key: PathBuf, contents: String)
    requires
        paths_equal(key, key),
    ensures
        find_key(entries_with(files, key, contents), key) matches Some(i)
            && entries_with(files, key, contents)[i].1 == contents,
{
    lemma_find_key_bounds(files, key);
    match find_key(files, key) {
        Some(i) => {
            lemma_find_key_update(files, key, i, contents);
        },
        None => {
            assert(files.push((key, contents)).drop_last() =~= files);
        },
    }
}

impl Default for MemoryLoader {
    fn default() -> (l: Self)
        ensures
            l.entries() == Seq::<(PathBuf, String)>::empty(),
    {
        Self::new()
    }
}

impl Loader for MemoryLoader {
    /// The outcome for `path`: the text registered under it, with the path as
    /// its identity, or `NotFound` for the path.
    open spec fn loads(&self, path: PathBuf, r: Result<LoadedFile, LoadError>) -> bool {
        match find_key(self.entries(), path) {
            Some(i) => r == Ok::<LoadedFile, LoadError>(LoadedFile { source: self.entries()[i].1, canonical_path: path }),
            None => r == Err::<LoadedFile, LoadError>(LoadError::NotFound { path }),
        }
    }

    /// The text registered under the path, with the path as its identity;
    /// `NotFound` when no entry has an equal path.
    fn load(&self, path: &Path) -> (r: Result<LoadedFile, LoadError>)
        ensures
            match find_key(self.entries(), path_of(path)) {
                Some(i) => r == Ok::<LoadedFile, LoadError>(
                    LoadedFile { source: self.entries()[i].1, canonical_path: path_of(path) },
                ),
                None => r == Err::<LoadedFile, LoadError>(LoadError::NotFound { path: path_of(path) }),
            },
    {
        let key = owned_path(path);
        match self.lookup(&key) {
            Some(source) => Ok(LoadedFile { source, canonical_path: key }),
            None => Err(LoadError::NotFound { path: key }),
        }
    }
}

/// Loader that reads files from the filesystem; this type holds its
/// admission rules, the reading itself is done by its caller.
pub struct FsLoader {
    canonical_root: PathBuf,
    max_file_size: u64,
}

impl FsLoader {
    /// Default per-file size cap: 10 MiB.
    pub const DEFAULT_MAX_FILE_SIZE: u64 = 10485760;

    /// A loader whose (already canonicalized) root is `canonical_root`, with
    /// the default size limit.
    pub fn with_canonical_root(canonical_root: PathBuf) -> (l: Self)
        ensures
            l.canonical_root() == canonical_root,
            l.max_file_size() == Self::DEFAULT_MAX_FILE_SIZE,
    {
        FsLoader { canonical_root, max_file_size: Self::DEFAULT_MAX_FILE_SIZE }
    }

    /// The canonical root every load must stay under.
    pub closed spec fn canonical_root(&self) -> PathBuf {
        self.canonical_root
    }

    /// The per-file size cap (bytes).
    pub closed spec fn max_file_size(&self) -> u64 {
        self.max_file_size
    }

    /// The canonical root every load must stay under.
    pub fn root(&self) -> (r: &PathBuf)
        ensures
            *r == self.canonical_root(),
    {
        &self.canonical_root
    }

    /// Override the per-file size cap (bytes).
    pub fn with_max_file_size(self, max_file_size: u64) -> (l: Self)
        ensures
            l.canonical_root() == self.canonical_root(),
            l.max_file_size() == max_file_size,
    {
        let mut l = self;
        l.max_file_size = max_file_size;
        l
    }

    /// The admission check for a file whose canonical path, kind and size
    /// are known: it must sit under the canonical root, be a regular file,
    /// and fit the size cap. On success the canonical path is handed back
    /// to be read.
    pub fn check_admission(&self, canonical_path: PathBuf, is_regular_file: bool, size: u64) -> (r: Result<PathBuf, LoadError>)
        ensures
            !path_starts_with(canonical_path, self.canonical_root()) ==> r == Err::<PathBuf, LoadError>(LoadError::OutsideRoot { path: canonical_path, root: self.canonical_root() }),
            path_starts_with(canonical_path, self.canonical_root()) && !is_regular_file ==> (r matches Err(LoadError::Io { path, message }) && path == canonical_path && message@ == NOT_REGULAR_FILE@),
            path_starts_with(canonical_path, self.canonical_root()) && is_regular_file && size > self.max_file_size() ==> r == Err::<PathBuf, LoadError>(LoadError::TooLarge { path: canonical_path, size, limit: self.max_file_size() }),
            path_starts_with(canonical_path, self.canonical_root()) && is_regular_file && size <= self.max_file_size() ==> r == Ok::<PathBuf, LoadError>(canonical_path),
    {
        if !starts_with_path(&canonical_path, &self.canonical_root) {
            return Err(LoadError::OutsideRoot { path: canonical_path, root: self.canonical_root.clone() });
        }
        if !is_regular_file {
            return Err(LoadError::Io { path: canonical_path, message: NOT_REGULAR_FILE.to_string() });
        }
        if size > self.max_file_size {
            return Err(LoadError::TooLarge { path: canonical_path, size, limit: self.max_file_size });
        }
        Ok(canonical_path)
    }
}

/// The message of a load refused because the target is not a regular file.
pub const NOT_REGULAR_FILE: &'static str = "include target is not a regular file";

} // verus!
