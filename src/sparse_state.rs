use vstd::prelude::*;

use rand::Rng;

use crate::sparse_errors::SparseError;
use crate::sparse_ref_utils::SparseRefUtils;
use crate::sparse_ref_utils::clean_of;
use crate::sparse_ref_utils::clean_path;
use crate::sparse_ref_utils::normalized_spec;
use crate::tree::Tree;
use crate::tree::pointer_spec;
use crate::tree::replaced;

verus! {

/// Relies on `rand::Rng::gen_range` over `rand::thread_rng`: a number drawn from `1..u64::MAX`.
#[verifier::external_body]
fn initial_version() -> (r: u64)
    ensures
        1 <= r < u64::MAX,
{
    rand::thread_rng().gen_range(1..u64::MAX)
}

/// The text format a document was read in, and is written back in.
#[derive(Clone, Copy, Debug, PartialEq, Eq, Structural)]
pub enum SparseFileFormat {
    /// JSON, pretty-printed when the flag is set.
    Json(bool),
    Yaml,
}

impl Default for SparseFileFormat {
    fn default() -> (r: Self)
        ensures
            r == SparseFileFormat::Yaml,
    {
        SparseFileFormat::Yaml
    }
}

/// One document of the store: its content, its version and its format.
#[derive(Debug)]
pub struct SparseStateFile {
    val: Tree,
    version: u64,
    ftype: SparseFileFormat,
}

impl SparseStateFile {
    pub closed spec fn val_spec(&self) -> Tree {
        self.val
    }

    pub closed spec fn version_spec(&self) -> u64 {
        self.version
    }

    pub closed spec fn ftype_spec(&self) -> SparseFileFormat {
        self.ftype
    }

    /// Creates a document; its first version is drawn at random.
    pub fn new(val: Tree, ftype: SparseFileFormat) -> (r: Self)
        ensures
            r.val_spec() == val,
            r.ftype_spec() == ftype,
            1 <= r.version_spec() < u64::MAX,
    {
        SparseStateFile { val, version: initial_version(), ftype }
    }

    pub fn val(&self) -> (r: &Tree)
        ensures
            *r == self.val_spec(),
    {
        &self.val
    }

    pub fn version(&self) -> (r: u64)
        ensures
            r == self.version_spec(),
    {
        self.version
    }

    pub fn ftype(&self) -> (r: SparseFileFormat)
        ensures
            r == self.ftype_spec(),
    {
        self.ftype
    }

    /// Increments the version by one.
    pub fn bump_version(&mut self)
        requires
            old(self).version_spec() < u64::MAX,
        ensures
            final(self).version_spec() == old(self).version_spec() + 1,
            final(self).val_spec() == old(self).val_spec(),
            final(self).ftype_spec() == old(self).ftype_spec(),
    {
        self.version = self.version + 1;
    }

    /// Replaces the content and increments the version.
    pub fn replace(&mut self, val: Tree)
        requires
            old(self).version_spec() < u64::MAX,
        ensures
            final(self).version_spec() == old(self).version_spec() + 1,
            final(self).val_spec() == val,
            final(self).ftype_spec() == old(self).ftype_spec(),
    {
        self.val = val;
        self.bump_version();
    }
}

/// `fs` is a run of a document through successive `replace` calls: each step holds the
/// value given to it, in the same format, one version later.
pub open spec fn replace_run(fs: Seq<SparseStateFile>, vals: Seq<Tree>) -> bool {
    &&& fs.len() == vals.len() + 1
    &&& forall|k: int|
        0 <= k < vals.len() ==> (#[trigger] fs[k + 1]).version_spec() == fs[k].version_spec() + 1
            && fs[k + 1].val_spec() == vals[k] && fs[k + 1].ftype_spec() == fs[k].ftype_spec()
}

/// Along successive replaces, versions strictly increase, so none repeats: after `n`
/// replaces the version is the first plus `n`, and the content is the last value given.
pub proof fn lemma_replace_run(fs: Seq<SparseStateFile>, vals: Seq<Tree>)
    requires
        replace_run(fs, vals),
    ensures
        forall|k: int| 0 <= k < fs.len() ==> #[trigger] fs[k].version_spec() == fs[0].version_spec() + k,
        forall|j: int, k: int|
            0 <= j < k < fs.len() ==> fs[j].version_spec() < fs[k].version_spec(),
        vals.len() > 0 ==> fs.last().val_spec() == vals.last(),
    decreases vals.len(),
{
    if vals.len() > 0 {
        let n = vals.len() - 1;
        lemma_replace_run(fs.subrange(0, fs.len() - 1), vals.subrange(0, n));
        assert forall|k: int| 0 <= k < fs.len() implies #[trigger] fs[k].version_spec()
            == fs[0].version_spec() + k by {
            if k < fs.len() - 1 {
                assert(fs.subrange(0, fs.len() - 1)[k] == fs[k]);
            } else {
                assert(fs.subrange(0, fs.len() - 1)[k - 1] == fs[k - 1]);
                assert(fs[(k - 1) + 1] == fs[k]);
            }
        }
    }
}

/// Index of the first path at or after `from` whose text is `p`, or -1.
pub open spec fn path_index_from(ps: Seq<String>, p: Seq<char>, from: int) -> int
    decreases ps.len() - from,
{
    if from < 0 || from >= ps.len() {
        -1
    } else if ps[from]@ == p {
        from
    } else {
        path_index_from(ps, p, from + 1)
    }
}

proof fn lemma_path_index_from(ps: Seq<String>, p: Seq<char>, from: int)
    requires
        0 <= from <= ps.len(),
    ensures
        path_index_from(ps, p, from) == -1 || from <= path_index_from(ps, p, from) < ps.len(),
        path_index_from(ps, p, from) >= 0 ==> ps[path_index_from(ps, p, from)]@ == p,
    decreases ps.len() - from,
{
    if from < ps.len() && ps[from]@ != p {
        lemma_path_index_from(ps, p, from + 1);
    }
}

proof fn lemma_path_index_push(ps: Seq<String>, x: String, q: Seq<char>, from: int)
    requires
        0 <= from <= ps.len(),
    ensures
        path_index_from(ps.push(x), q, from) == if path_index_from(ps, q, from) >= 0 {
            path_index_from(ps, q, from)
        } else if x@ == q {
            ps.len() as int
        } else {
            -1
        },
    decreases ps.len() - from,
{
    if from < ps.len() {
        assert(ps.push(x)[from] == ps[from]);
        if ps[from]@ != q {
            lemma_path_index_push(ps, x, q, from + 1);
        }
    } else {
        assert(ps.push(x)[from] == x);
        assert(path_index_from(ps.push(x), q, from + 1) == -1);
    }
}

/// The outcome of writing `val` at pointer `p` (empty: the whole content) of the document
/// at `path`, taking store `a` to `b` with result `r`: `NotInState` when there is no such
/// document, `UnknownPath(p)` when `p` names no value, `VersionExhausted` when the version
/// cannot grow, each with the store unchanged; else the value is written, the version
/// incremented by one, and every other document is unchanged.
pub open spec fn save_outcome(
    a: SparseState,
    b: SparseState,
    path: Seq<char>,
    p: Seq<char>,
    val: Tree,
    r: Result<(), SparseError>,
) -> bool {
    &&& b.wf()
    &&& b.root_spec() == a.root_spec()
    &&& b.in_memory_spec() == a.in_memory_spec()
    &&& b.paths_spec() == a.paths_spec()
    &&& match a.file_spec(path) {
        None => (r matches Err(SparseError::NotInState)) && b == a,
        Some(f) => if pointer_spec(f.val_spec(), p) is None {
            (r matches Err(SparseError::UnknownPath(s)) && s@ == p) && b == a
        } else if f.version_spec() == u64::MAX {
            (r matches Err(SparseError::VersionExhausted)) && b == a
        } else {
            &&& r is Ok
            &&& b.file_spec(path) matches Some(g) && replaced(f.val_spec(), g.val_spec(), p, val)
                && g.version_spec() == f.version_spec() + 1 && g.ftype_spec() == f.ftype_spec()
            &&& forall|q: Seq<char>| q != path ==> b.file_spec(q) == a.file_spec(q)
        },
    }
}

/// The outcome of adding document `val` in format `ftype` at path `np`, taking store `a` to
/// `b` with result `r`: nothing changes when a document is present there; an in-memory store
/// refuses with `NoDistantFile`; else the document is added and every other path is
/// unchanged.
pub open spec fn add_outcome(
    a: SparseState,
    b: SparseState,
    np: Seq<char>,
    val: Tree,
    ftype: SparseFileFormat,
    r: Result<(), SparseError>,
) -> bool {
    &&& b.wf()
    &&& b.root_spec() == a.root_spec()
    &&& b.in_memory_spec() == a.in_memory_spec()
    &&& a.file_spec(np) is Some ==> r is Ok && b == a
    &&& a.file_spec(np) is None && a.in_memory_spec() ==> (r matches Err(SparseError::NoDistantFile))
        && b == a
    &&& a.file_spec(np) is None && !a.in_memory_spec() ==> {
        &&& r is Ok
        &&& b.file_spec(np) matches Some(f) && f.val_spec() == val && f.ftype_spec() == ftype
        &&& forall|q: Seq<char>| q != np ==> b.file_spec(q) == a.file_spec(q)
    }
}

/// # The document store
///
/// Maps absolute paths to documents. A path is present at most once, and adding a document
/// never overwrites one that is present.
#[derive(Debug)]
pub struct SparseState {
    paths: Vec<String>,
    files: Vec<SparseStateFile>,
    root_base: String,
    in_memory: bool,
}

impl SparseState {
    pub closed spec fn wf(&self) -> bool {
        self.paths.len() == self.files.len()
    }

    /// The path of the root document.
    pub closed spec fn root_spec(&self) -> Seq<char> {
        self.root_base@
    }

    /// Whether the store was created in memory, and so never loads other files.
    pub closed spec fn in_memory_spec(&self) -> bool {
        self.in_memory
    }

    /// The document at path `p`, if the store holds one.
    pub closed spec fn file_spec(&self, p: Seq<char>) -> Option<SparseStateFile> {
        let i = path_index_from(self.paths@, p, 0);
        if 0 <= i < self.files.len() {
            Some(self.files@[i])
        } else {
            None
        }
    }

    /// The paths of the documents, in the order they were added.
    pub closed spec fn paths_spec(&self) -> Seq<String> {
        self.paths@
    }

    fn position(&self, p: &str) -> (r: Option<usize>)
        requires
            self.wf(),
        ensures
            match r {
                Some(i) => i == path_index_from(self.paths@, p@, 0) && i < self.files.len(),
                None => path_index_from(self.paths@, p@, 0) == -1,
            },
    {
        let owned: String = p.to_owned();
        let mut i: usize = 0;
        while i < self.paths.len()
            invariant
                0 <= i <= self.paths.len(),
                self.wf(),
                owned@ == p@,
                path_index_from(self.paths@, p@, i as int) == path_index_from(self.paths@, p@, 0),
            decreases self.paths.len() - i,
        {
            if self.paths[i] == owned {
                return Some(i);
            }
            i = i + 1;
        }
        None
    }

    fn with_root(path: &str, val: Tree, ftype: SparseFileFormat, in_memory: bool) -> (r: Self)
        ensures
            r.wf(),
            r.root_spec() == clean_of(path@),
            r.in_memory_spec() == in_memory,
            r.file_spec(r.root_spec()) matches Some(f) && f.val_spec() == val && f.ftype_spec()
                == ftype,
            forall|q: Seq<char>| q != r.root_spec() ==> r.file_spec(q) is None,
    {
        let root = clean_path(path);
        let mut paths: Vec<String> = Vec::new();
        let mut files: Vec<SparseStateFile> = Vec::new();
        paths.push(root.clone());
        files.push(SparseStateFile::new(val, ftype));
        let r = SparseState { paths, files, root_base: root, in_memory };
        proof {
            assert forall|q: Seq<char>| q != r.root_spec() implies r.file_spec(q) is None by {
                assert(r.paths@[0]@ != q);
                assert(path_index_from(r.paths@, q, 1) == -1);
            }
        }
        r
    }

    /// Creates an in-memory store whose root document is `val`, at `path` (cleaned).
    /// Such a store never loads other files.
    pub fn new_from_value(path: &str, val: Tree) -> (r: Self)
        ensures
            r.wf(),
            r.root_spec() == clean_of(path@),
            r.in_memory_spec(),
            r.file_spec(r.root_spec()) matches Some(f) && f.val_spec() == val && f.ftype_spec()
                == SparseFileFormat::Yaml,
            forall|q: Seq<char>| q != r.root_spec() ==> r.file_spec(q) is None,
    {
        SparseState::with_root(path, val, SparseFileFormat::Yaml, true)
    }

    /// Creates a file-backed store whose root document is `val`, as read from the file at
    /// `path` in format `ftype`.
    pub fn new_from_file(path: &str, val: Tree, ftype: SparseFileFormat) -> (r: Self)
        ensures
            r.wf(),
            r.root_spec() == clean_of(path@),
            !r.in_memory_spec(),
            r.file_spec(r.root_spec()) matches Some(f) && f.val_spec() == val && f.ftype_spec()
                == ftype,
            forall|q: Seq<char>| q != r.root_spec() ==> r.file_spec(q) is None,
    {
        SparseState::with_root(path, val, ftype, false)
    }

    /// The path of the root document.
    pub fn get_root_path(&self) -> (r: &String)
        ensures
            r@ == self.root_spec(),
    {
        &self.root_base
    }

    pub fn is_in_memory(&self) -> (r: bool)
        ensures
            r == self.in_memory_spec(),
    {
        self.in_memory
    }

    /// The paths of the documents, in the order they were added.
    pub fn paths(&self) -> (r: &Vec<String>)
        ensures
            r@ == self.paths_spec(),
    {
        &self.paths
    }

    /// The path that `path` names relative to the root document, cleaned.
    pub fn resolve_path(&self, path: &str) -> (r: String)
        ensures
            r@ == normalized_spec(path@, self.root_spec()),
    {
        SparseRefUtils::normalize_path(path, self.root_base.as_str())
    }

    /// Whether the store holds a document at `path` (taken as it is).
    pub fn contains(&self, path: &str) -> (r: bool)
        requires
            self.wf(),
        ensures
            r == self.file_spec(path@) is Some,
    {
        self.position(path).is_some()
    }

    /// The document at `path` (taken as it is).
    pub fn get_state_file<'a>(&'a self, path: &str) -> (r: Result<&'a SparseStateFile, SparseError>)
        requires
            self.wf(),
        ensures
            match r {
                Ok(f) => self.file_spec(path@) == Some(*f),
                Err(e) => self.file_spec(path@) is None && e is NotInState,
            },
    {
        match self.position(path) {
            Some(i) => Ok(&self.files[i]),
            None => Err(SparseError::NotInState),
        }
    }

    fn insert(&mut self, path: String, file: SparseStateFile)
        requires
            old(self).wf(),
            old(self).file_spec(path@) is None,
        ensures
            final(self).wf(),
            final(self).root_spec() == old(self).root_spec(),
            final(self).in_memory_spec() == old(self).in_memory_spec(),
            final(self).file_spec(path@) == Some(file),
            forall|q: Seq<char>| q != path@ ==> final(self).file_spec(q) == old(self).file_spec(q),
            final(self).paths_spec() == old(self).paths_spec().push(path),
    {
        let ghost old_paths = self.paths@;
        let ghost p = path@;
        self.paths.push(path);
        self.files.push(file);
        proof {
            lemma_path_index_from(old_paths, p, 0);
            assert forall|q: Seq<char>| #![auto] true implies self.file_spec(q) == (if q == p {
                Some(file)
            } else {
                old(self).file_spec(q)
            }) by {
                lemma_path_index_push(old_paths, self.paths@.last(), q, 0);
                lemma_path_index_from(old_paths, q, 0);
            }
            assert(self.file_spec(p) == Some(file));
        }
    }

    /// Adds the in-memory document `value` at `path`, taken relative to the root document.
    /// Does nothing when a document is present at that path.
    pub fn add_value(&mut self, path: &str, value: Tree)
        requires
            old(self).wf(),
        ensures
            final(self).wf(),
            ({
                let np = normalized_spec(path@, old(self).root_spec());
                &&& old(self).file_spec(np) is Some ==> *final(self) == *old(self)
                &&& old(self).file_spec(np) is None ==> {
                    &&& final(self).file_spec(np) matches Some(f) && f.val_spec() == value
                        && f.ftype_spec() == SparseFileFormat::Yaml
                    &&& forall|q: Seq<char>|
                        q != np ==> final(self).file_spec(q) == old(self).file_spec(q)
                }
            }),
            final(self).root_spec() == old(self).root_spec(),
            final(self).in_memory_spec() == old(self).in_memory_spec(),
    {
        let np = self.resolve_path(path);
        if self.contains(np.as_str()) {
            return;
        }
        self.insert(np, SparseStateFile::new(value, SparseFileFormat::Yaml));
    }

    /// Adds the document `value`, read from the file at `path` (taken relative to the root
    /// document) in format `ftype`. Does nothing when a document is present at that path;
    /// fails with `NoDistantFile` on an in-memory store.
    pub fn add_file(&mut self, path: &str, value: Tree, ftype: SparseFileFormat) -> (r: Result<
        (),
        SparseError,
    >)
        requires
            old(self).wf(),
        ensures
            add_outcome(
                *old(self),
                *final(self),
                normalized_spec(path@, old(self).root_spec()),
                value,
                ftype,
                r,
            ),
    {
        let np = self.resolve_path(path);
        if self.contains(np.as_str()) {
            return Ok(());
        }
        if self.in_memory {
            return Err(SparseError::NoDistantFile);
        }
        self.insert(np, SparseStateFile::new(value, ftype));
        Ok(())
    }

    /// Adds the document `value`, read from the file at exactly `path` (as resolution asked
    /// for it with `FileNeeded`) in format `ftype`. Does nothing when a document is present
    /// at that path; fails with `NoDistantFile` on an in-memory store.
    pub fn add_file_at(&mut self, path: &str, value: Tree, ftype: SparseFileFormat) -> (r: Result<
        (),
        SparseError,
    >)
        requires
            old(self).wf(),
        ensures
            add_outcome(*old(self), *final(self), path@, value, ftype, r),
    {
        if self.contains(path) {
            return Ok(());
        }
        if self.in_memory {
            return Err(SparseError::NoDistantFile);
        }
        self.insert(path.to_owned(), SparseStateFile::new(value, ftype));
        Ok(())
    }

    /// Writes `val` into the document at `path`: at `pointer` inside it, or as its whole
    /// content when there is no pointer. Increments the document's version.
    pub fn replace_at(&mut self, path: &str, pointer: Option<&str>, val: Tree) -> (r: Result<
        (),
        SparseError,
    >)
        requires
            old(self).wf(),
        ensures
            save_outcome(
                *old(self),
                *final(self),
                path@,
                match pointer {
                    Some(p) => p@,
                    None => Seq::empty(),
                },
                val,
                r,
            ),
    {
        let i = match self.position(path) {
            Some(i) => i,
            None => {
                return Err(SparseError::NotInState);
            },
        };
        let p: &str = match pointer {
            Some(p) => p,
            None => "",
        };
        proof {
            reveal_strlit("");
        }
        if self.files[i].val.pointer(p).is_none() {
            return Err(SparseError::UnknownPath(p.to_owned()));
        }
        if self.files[i].version == u64::MAX {
            return Err(SparseError::VersionExhausted);
        }
        let mut f = SparseStateFile { val: Tree::Null, version: 0, ftype: SparseFileFormat::Yaml };
        self.files.set_and_swap(i, &mut f);
        f.val.replace_pointer(p, val);
        f.bump_version();
        self.files.set_and_swap(i, &mut f);
        proof {
            lemma_path_index_from(self.paths@, path@, 0);
            assert forall|q: Seq<char>| q != path@ implies self.file_spec(q) == old(
                self,
            ).file_spec(q) by {
                lemma_path_index_from(self.paths@, q, 0);
            }
        }
        Ok(())
    }
}

} // verus!
