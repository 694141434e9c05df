use vstd::prelude::*;

use crate::resolution::based_in;
use crate::resolution::consistent;
use crate::resolution::lemma_consistent_grows;
use crate::resolution::lemma_rendered_resolvable;
use crate::resolution::lemma_resolved_resolvable;
use crate::resolution::lemma_resolved_refs_render;
use crate::resolution::lemma_same_shape_based;
use crate::resolution::lemma_same_shape_renders;
use crate::resolution::lemma_unresolved_based;
use crate::resolution::lemma_unresolved_consistent;
use crate::resolution::refs_render_at;
use crate::resolution::renders;
use crate::resolution::failure_matches;
use crate::resolution::selector_error;
use crate::resolution::resolved;
use crate::resolution::same_shape;
use crate::resolution::serializes;
use crate::resolution::store_grows;
use crate::resolution::tree_error;
use crate::sparse_errors::SparseError;
use crate::sparse_ref_utils::SparseRefUtils;
use crate::sparse_selector::SparseSelector;
use crate::sparse_ref_utils::clean_of;
use crate::sparse_ref_utils::normalized_spec;
use crate::sparse_state::add_outcome;
use crate::sparse_state::save_outcome;
use crate::sparse_state::SparseFileFormat;
use crate::sparse_state::SparseState;
use crate::sparse_state::SparseStateFile;
use crate::sparse_value::SparseValue;
use crate::sparse_value::SparseValueMut;
use crate::tree::Tree;
use crate::tree::lemma_replaced_pointer;
use crate::tree::pointer_spec;
use crate::tree::replaced;

verus! {

/// # The root coordinator
///
/// A deserialized root document together with the store it was read from, and the version
/// of the root document it was last read at.
#[derive(Debug)]
pub struct SparseRoot {
    val: SparseSelector,
    state: SparseState,
    metadata: SparseRefUtils,
}

/// The text `/`.
fn slash() -> (r: String)
    ensures
        r@ == seq!['/'],
{
    let r = String::from_str("/");
    proof {
        reveal_strlit("/");
        assert(r@ =~= seq!['/']);
    }
    r
}

/// Index of the first of `others` at or after `k` whose path, taken relative to the
/// document at `root`, is `q`; -1 when there is none.
pub open spec fn first_other(others: Seq<(Tree, String)>, root: Seq<char>, q: Seq<char>, k: int) -> int
    decreases others.len() - k,
{
    if k < 0 || k >= others.len() {
        -1
    } else if normalized_spec(others[k].1@, root) == q {
        k
    } else {
        first_other(others, root, q, k + 1)
    }
}

proof fn lemma_first_other(others: Seq<(Tree, String)>, root: Seq<char>, q: Seq<char>, k: int)
    requires
        0 <= k <= others.len(),
    ensures
        first_other(others, root, q, k) == -1 || k <= first_other(others, root, q, k)
            < others.len(),
    decreases others.len() - k,
{
    if k < others.len() && normalized_spec(others[k].1@, root) != q {
        lemma_first_other(others, root, q, k + 1);
    }
}

proof fn lemma_first_other_push(
    others: Seq<(Tree, String)>,
    x: (Tree, String),
    root: Seq<char>,
    q: Seq<char>,
    k: int,
)
    requires
        0 <= k <= others.len(),
    ensures
        first_other(others.push(x), root, q, k) == if first_other(others, root, q, k) >= 0 {
            first_other(others, root, q, k)
        } else if normalized_spec(x.1@, root) == q {
            others.len() as int
        } else {
            -1
        },
    decreases others.len() - k,
{
    if k < others.len() {
        assert(others.push(x)[k] == others[k]);
        if normalized_spec(others[k].1@, root) != q {
            lemma_first_other_push(others, x, root, q, k + 1);
        }
    } else {
        assert(others.push(x)[k] == x);
        assert(first_other(others.push(x), root, q, k + 1) == -1);
    }
}

/// `st` is the in-memory store made of the root document `rval` at `root` and of `others`:
/// at every other path it holds the first of `others` whose path, taken relative to the
/// root, is that one, and nothing where there is none.
pub open spec fn built_from(st: SparseState, rval: Tree, root: Seq<char>, others: Seq<(Tree, String)>) -> bool {
    &&& st.wf()
    &&& st.in_memory_spec()
    &&& st.root_spec() == root
    &&& st.file_spec(root) matches Some(f) && f.val_spec() == rval
    &&& forall|q: Seq<char>|
        q != root ==> match #[trigger] st.file_spec(q) {
            Some(f) => first_other(others, root, q, 0) >= 0 && f.val_spec() == others[first_other(
                others,
                root,
                q,
                0,
            )].0,
            None => first_other(others, root, q, 0) < 0,
        }
}

impl SparseRoot {
    pub closed spec fn val_spec(&self) -> SparseSelector {
        self.val
    }

    pub closed spec fn state_spec(&self) -> SparseState {
        self.state
    }

    /// The version of the root document when the root value was last read.
    pub closed spec fn version_spec(&self) -> u64 {
        self.metadata.version
    }

    pub closed spec fn metadata_spec(&self) -> SparseRefUtils {
        self.metadata
    }

    /// The root document in the store.
    pub open spec fn root_file(&self) -> Option<SparseStateFile> {
        self.state_spec().file_spec(self.state_spec().root_spec())
    }

    /// The root value was read from the root document at a version no later than the
    /// current one (and renders it when that version is the current one), and its cache is
    /// consistent with the store.
    pub open spec fn wf(&self) -> bool {
        &&& self.state_spec().wf()
        &&& self.metadata_spec().pfile_path@ == self.state_spec().root_spec()
        &&& self.root_file() matches Some(f) && self.version_spec() <= f.version_spec() && (
        self.version_spec() == f.version_spec() ==> renders(self.val_spec(), f.val_spec()))
        &&& consistent(self.val_spec(), self.state_spec())
        &&& based_in(self.val_spec(), self.state_spec().root_spec())
    }

    /// The root value renders the current root document, and every reference in it is
    /// resolved against the store as it is now.
    pub open spec fn synced(&self) -> bool {
        &&& self.wf()
        &&& self.root_file() matches Some(f) && self.version_spec() == f.version_spec()
        &&& resolved(self.val_spec(), self.state_spec(), 0)
    }

    proof fn lemma_wf_grows(&self, other: &Self)
        requires
            self.wf(),
            other.state_spec().wf(),
            other.val_spec() == self.val_spec(),
            other.metadata_spec() == self.metadata_spec(),
            other.state_spec().root_spec() == self.state_spec().root_spec(),
            store_grows(self.state_spec(), other.state_spec()),
        ensures
            other.wf(),
    {
        let r = self.state_spec().root_spec();
        assert(self.state_spec().file_spec(r) is Some);
        lemma_consistent_grows(self.val_spec(), self.state_spec(), other.state_spec());
    }

    fn read_root(state: SparseState) -> (r: Self)
        requires
            state.wf(),
            state.file_spec(state.root_spec()) is Some,
        ensures
            r.wf(),
            r.state_spec() == state,
            r.version_spec() == state.file_spec(state.root_spec())->Some_0.version_spec(),
    {
        let (val, version) = match state.get_state_file(state.get_root_path().as_str()) {
            Ok(f) => (SparseSelector::from_tree(f.val(), state.get_root_path().as_str()), f.version()),
            Err(_) => (SparseSelector::Null, 0),
        };
        let metadata = SparseRefUtils {
            version,
            pfile_path: state.get_root_path().clone(),
            raw_pointer: slash(),
            pointer: slash(),
        };
        let r = SparseRoot { val, state, metadata };
        proof {
            lemma_unresolved_consistent(r.val, r.state, r.state.root_spec());
            lemma_unresolved_based(r.val, r.state.root_spec());
        }
        r
    }

    /// A root over `state`, read from its root document and not yet resolved.
    /// Fails with `NoRoot` when the store has no root document.
    pub fn from_state(state: SparseState) -> (r: Result<Self, SparseError>)
        requires
            state.wf(),
        ensures
            state.file_spec(state.root_spec()) is None ==> (r matches Err(SparseError::NoRoot)),
            state.file_spec(state.root_spec()) matches Some(f) ==> (r matches Ok(root)
                && root.wf() && root.state_spec() == state && root.version_spec()
                == f.version_spec()),
    {
        if !state.contains(state.get_root_path().as_str()) {
            return Err(SparseError::NoRoot);
        }
        Ok(SparseRoot::read_root(state))
    }

    /// Reads the in-memory document `rval` as the root, at `path`, with the in-memory
    /// documents `others` beside it, and resolves it. It succeeds exactly when the root
    /// document resolves against that store, and otherwise reports the first failure.
    pub fn new_from_value(rval: Tree, path: &str, others: Vec<(Tree, String)>) -> (r: Result<
        Self,
        SparseError,
    >)
        ensures
            exists|st: SparseState|
                built_from(st, rval, clean_of(path@), others@) && match tree_error(
                    rval,
                    clean_of(path@),
                    st,
                    0,
                ) {
                    None => r is Ok,
                    Some(x) => r matches Err(e) && failure_matches(e, x),
                },
            r matches Ok(root) ==> root.synced() && built_from(
                root.state_spec(),
                rval,
                clean_of(path@),
                others@,
            ),
    {
        let ghost rv = rval;
        let ghost all = others@;
        let mut state = SparseState::new_from_value(path, rval);
        let ghost root_path = state.root_spec();
        let mut others = others;
        let ghost mut k: int = 0;
        proof {
            assert forall|q: Seq<char>| q != root_path implies #[trigger] state.file_spec(q) is None
                && first_other(all.subrange(0, 0), root_path, q, 0) < 0 by {}
            assert(others@ =~= all.subrange(0, all.len() as int));
        }
        while others.len() > 0
            invariant
                0 <= k <= all.len(),
                others@ == all.subrange(k, all.len() as int),
                root_path == clean_of(path@),
                built_from(state, rv, root_path, all.subrange(0, k)),
            decreases others.len(),
        {
            let ghost done = all.subrange(0, k);
            let (val, p) = others.remove(0);
            proof {
                assert(all[k] == (val, p));
                assert(all.subrange(0, k + 1) =~= done.push((val, p)));
            }
            let ghost before = state;
            state.add_value(p.as_str(), val);
            proof {
                let np = normalized_spec(p@, root_path);
                let nd = done.push((val, p));
                assert forall|q: Seq<char>| q != root_path implies match #[trigger] state.file_spec(q) {
                    Some(f) => first_other(nd, root_path, q, 0) >= 0 && f.val_spec()
                        == nd[first_other(nd, root_path, q, 0)].0,
                    None => first_other(nd, root_path, q, 0) < 0,
                } by {
                    lemma_first_other_push(done, (val, p), root_path, q, 0);
                    lemma_first_other(done, root_path, q, 0);
                    if first_other(done, root_path, q, 0) >= 0 {
                        assert(nd[first_other(done, root_path, q, 0)] == done[first_other(
                            done,
                            root_path,
                            q,
                            0,
                        )]);
                    }
                }
                k = k + 1;
                assert(others@ =~= all.subrange(k, all.len() as int));
            }
        }
        proof {
            assert(all.subrange(0, k) =~= all);
        }
        let ghost st = state;
        let mut root = match SparseRoot::from_state(state) {
            Ok(root) => root,
            Err(e) => {
                return Err(e);
            },
        };
        proof {
            let f = st.file_spec(root_path)->Some_0;
            lemma_rendered_resolvable(root.val_spec(), rv, root_path, st, 0);
        }
        let r = root.sparse_init();
        match r {
            Ok(()) => Ok(root),
            Err(e) => Err(e),
        }
    }

    /// Serializes `rval` and reads it as the in-memory root document, as `new_from_value`
    /// does.
    pub fn new_from_obj(rval: &SparseSelector, path: &str, others: Vec<(Tree, String)>) -> (r:
        Result<Self, SparseError>)
        ensures
            exists|t: Tree, st: SparseState|
                serializes(*rval, t) && built_from(st, t, clean_of(path@), others@) && match tree_error(
                    t,
                    clean_of(path@),
                    st,
                    0,
                ) {
                    None => r is Ok,
                    Some(x) => r matches Err(e) && failure_matches(e, x),
                },
            r matches Ok(root) ==> root.synced() && (root.root_file() matches Some(f)
                && serializes(*rval, f.val_spec())),
    {
        let t = rval.to_tree();
        let ghost tt = t;
        let r = SparseRoot::new_from_value(t, path, others);
        proof {
            let st = choose|st: SparseState|
                built_from(st, tt, clean_of(path@), others@) && match tree_error(
                    tt,
                    clean_of(path@),
                    st,
                    0,
                ) {
                    None => r is Ok,
                    Some(x) => r matches Err(e) && failure_matches(e, x),
                };
            assert(serializes(*rval, tt));
        }
        r
    }

    /// A root over the document `val`, read from the file at `path` in format `ftype`; it is
    /// resolved by `sparse_init`, which asks for the other files it needs.
    pub fn new_from_file(path: &str, val: Tree, ftype: SparseFileFormat) -> (r: Self)
        ensures
            r.wf(),
            !r.state_spec().in_memory_spec(),
            r.root_file() matches Some(f) && f.val_spec() == val && r.version_spec()
                == f.version_spec(),
    {
        let state = SparseState::new_from_file(path, val, ftype);
        SparseRoot::read_root(state)
    }

    /// The store.
    pub fn get_state(&self) -> (r: &SparseState)
        ensures
            *r == self.state_spec(),
    {
        &self.state
    }

    /// The descriptor of the root document.
    pub fn metadata(&self) -> (r: &SparseRefUtils)
        ensures
            *r == self.metadata_spec(),
    {
        &self.metadata
    }

    /// Checks that the root value was read at the current version of the root document:
    /// `OutdatedPointer` when it was not, `NoRoot` when the store has no root document.
    pub fn check_version(&self) -> (r: Result<(), SparseError>)
        requires
            self.state_spec().wf(),
        ensures
            match self.root_file() {
                None => r matches Err(SparseError::NoRoot),
                Some(f) => if f.version_spec() == self.version_spec() {
                    r is Ok
                } else {
                    r matches Err(SparseError::OutdatedPointer)
                },
            },
    {
        let f = match self.state.get_state_file(self.state.get_root_path().as_str()) {
            Ok(f) => f,
            Err(_) => {
                return Err(SparseError::NoRoot);
            },
        };
        if f.version() == self.metadata.version {
            Ok(())
        } else {
            Err(SparseError::OutdatedPointer)
        }
    }

    /// A read view of the root value.
    pub fn root_get(&self) -> (r: SparseValue<'_>)
        ensures
            r.sref_spec() == self.val_spec(),
            r.metadata_spec() == Some(self.metadata_spec()),
    {
        SparseValue::new(&self.val, Some(&self.metadata))
    }

    /// A write view of the whole root document, after checking the root is current.
    pub fn root_get_mut(&self) -> (r: Result<SparseValueMut, SparseError>)
        requires
            self.wf(),
        ensures
            self.root_file() matches Some(f) && f.version_spec() != self.version_spec() ==> (
            r matches Err(SparseError::OutdatedPointer)),
            self.root_file() matches Some(f) && f.version_spec() == self.version_spec() ==> (
            r matches Ok(v) && crate::resolution::serializes(self.val_spec(), v.val) && v.path@
                == self.state_spec().root_spec() && v.pointer is None && v.version
                == self.version_spec()),
    {
        self.check_version()?;
        Ok(
            SparseValueMut::new_root(
                self.val.to_tree(),
                self.state.get_root_path().clone(),
                self.metadata.version,
            ),
        )
    }

    /// Writes the working value of `view` back into its document of the store, which
    /// increments that document's version. The root value and the cached references are
    /// refreshed by the next `sparse_updt`.
    pub fn sparse_save(&mut self, view: SparseValueMut) -> (r: Result<(), SparseError>)
        requires
            old(self).wf(),
        ensures
            final(self).wf(),
            final(self).val_spec() == old(self).val_spec(),
            final(self).version_spec() == old(self).version_spec(),
            save_outcome(
                old(self).state_spec(),
                final(self).state_spec(),
                view.path@,
                match view.pointer {
                    Some(p) => p@,
                    None => Seq::empty(),
                },
                view.val,
                r,
            ),
    {
        let ghost before = *self;
        let r = view.sparse_save(&mut self.state);
        proof {
            before.lemma_wf_grows(self);
        }
        r
    }

    /// Adds the document `val`, read from the file at `path` in format `ftype`, to the store.
    pub fn add_file(&mut self, path: &str, val: Tree, ftype: SparseFileFormat) -> (r: Result<
        (),
        SparseError,
    >)
        requires
            old(self).wf(),
        ensures
            final(self).wf(),
            final(self).val_spec() == old(self).val_spec(),
            final(self).version_spec() == old(self).version_spec(),
            add_outcome(
                old(self).state_spec(),
                final(self).state_spec(),
                normalized_spec(path@, old(self).state_spec().root_spec()),
                val,
                ftype,
                r,
            ),
    {
        let ghost before = *self;
        let r = self.state.add_file(path, val, ftype);
        proof {
            before.lemma_wf_grows(self);
        }
        r
    }

    /// Adds the document `val`, read from the file at exactly `path` (as `FileNeeded` named
    /// it) in format `ftype`, to the store.
    pub fn add_file_at(&mut self, path: &str, val: Tree, ftype: SparseFileFormat) -> (r: Result<
        (),
        SparseError,
    >)
        requires
            old(self).wf(),
        ensures
            final(self).wf(),
            final(self).val_spec() == old(self).val_spec(),
            final(self).version_spec() == old(self).version_spec(),
            add_outcome(old(self).state_spec(), final(self).state_spec(), path@, val, ftype, r),
    {
        let ghost before = *self;
        let r = self.state.add_file_at(path, val, ftype);
        proof {
            before.lemma_wf_grows(self);
        }
        r
    }

    /// Resolves every reference of the root value afresh.
    pub fn sparse_init(&mut self) -> (r: Result<(), SparseError>)
        requires
            old(self).wf(),
        ensures
            final(self).wf(),
            final(self).state_spec() == old(self).state_spec(),
            final(self).version_spec() == old(self).version_spec(),
            same_shape(old(self).val_spec(), final(self).val_spec()),
            r is Ok ==> resolved(final(self).val_spec(), final(self).state_spec(), 0),
            match selector_error(old(self).val_spec(), old(self).state_spec(), 0) {
                None => r is Ok,
                Some(x) => r matches Err(e) && failure_matches(e, x),
            },
            r is Ok && (old(self).root_file() matches Some(f) && f.version_spec()
                == old(self).version_spec()) ==> final(self).synced(),
    {
        let ghost before = self.val;
        let r = self.val.sparse_init(&self.state, 0);
        proof {
            let f = self.state.file_spec(self.state.root_spec())->Some_0;
            if self.metadata.version == f.version_spec() {
                lemma_same_shape_renders(before, self.val, f.val_spec());
            }
            lemma_same_shape_based(before, self.val, self.state.root_spec());
        }
        r
    }

    /// Reads the root value afresh from the current root document, and resolves it.
    pub fn root_self_reset(&mut self) -> (r: Result<(), SparseError>)
        requires
            old(self).wf(),
        ensures
            final(self).wf(),
            final(self).state_spec() == old(self).state_spec(),
            r is Ok ==> final(self).synced(),
            match old(self).root_file() {
                Some(f) => match tree_error(
                    f.val_spec(),
                    old(self).state_spec().root_spec(),
                    old(self).state_spec(),
                    0,
                ) {
                    None => r is Ok,
                    Some(x) => r matches Err(e) && failure_matches(e, x),
                },
                None => r is Err,
            },
    {
        let (val, version) = match self.state.get_state_file(self.state.get_root_path().as_str()) {
            Ok(f) => (SparseSelector::from_tree(f.val(), self.state.get_root_path().as_str()), f.version()),
            Err(_) => {
                return Err(SparseError::NoRoot);
            },
        };
        self.val = val;
        self.metadata.version = version;
        proof {
            let f = self.state.file_spec(self.state.root_spec())->Some_0;
            lemma_unresolved_consistent(self.val, self.state, self.state.root_spec());
            lemma_unresolved_based(self.val, self.state.root_spec());
            lemma_rendered_resolvable(self.val, f.val_spec(), self.state.root_spec(), self.state, 0);
        }
        self.sparse_init()
    }

    /// Brings the root value up to date with the store: read afresh when the root document
    /// changed since it was read, else brought up to date reference by reference.
    pub fn sparse_updt(&mut self) -> (r: Result<(), SparseError>)
        requires
            old(self).wf(),
        ensures
            final(self).wf(),
            final(self).state_spec() == old(self).state_spec(),
            r is Ok ==> final(self).synced(),
            old(self).synced() ==> r is Ok,
            match old(self).root_file() {
                Some(f) => match tree_error(
                    f.val_spec(),
                    old(self).state_spec().root_spec(),
                    old(self).state_spec(),
                    0,
                ) {
                    None => r is Ok,
                    Some(x) => r matches Err(e) && failure_matches(e, x),
                },
                None => r is Err,
            },
    {
        match self.check_version() {
            Ok(()) => {},
            Err(SparseError::OutdatedPointer) => {
                return self.root_self_reset();
            },
            Err(e) => {
                return Err(e);
            },
        }
        proof {
            if resolved(self.val, self.state, 0) {
                lemma_resolved_resolvable(self.val, self.state, 0);
            }
        }
        let ghost before = self.val;
        proof {
            let f = self.state.file_spec(self.state.root_spec())->Some_0;
            lemma_rendered_resolvable(before, f.val_spec(), self.state.root_spec(), self.state, 0);
        }
        let r = self.val.sparse_updt(&self.state, 0);
        proof {
            let f = self.state.file_spec(self.state.root_spec())->Some_0;
            lemma_same_shape_renders(before, self.val, f.val_spec());
            lemma_same_shape_based(before, self.val, self.state.root_spec());
        }
        r
    }
}

impl SparseState {
    /// Deserializes the document at `path` (taken relative to the root document) and
    /// resolves it. Fails with `NotInState` when the store has no such document.
    pub fn parse_file(&self, path: &str) -> (r: Result<SparseSelector, SparseError>)
        requires
            self.wf(),
        ensures
            ({
                let np = crate::sparse_ref_utils::normalized_spec(path@, self.root_spec());
                &&& self.file_spec(np) is None ==> (r matches Err(SparseError::NotInState))
                &&& r matches Ok(s) ==> (self.file_spec(np) matches Some(f) && renders(
                    s,
                    f.val_spec(),
                ) && resolved(s, *self, 0))
                &&& self.file_spec(np) matches Some(f) ==> match tree_error(f.val_spec(), np, *self, 0) {
                    None => r is Ok,
                    Some(x) => r matches Err(e) && failure_matches(e, x),
                }
            }),
    {
        let np = self.resolve_path(path);
        let f = self.get_state_file(np.as_str())?;
        let mut s = SparseSelector::from_tree(f.val(), np.as_str());
        let ghost fresh = s;
        proof {
            lemma_unresolved_based(fresh, np@);
            lemma_rendered_resolvable(fresh, f.val_spec(), np@, *self, 0);
        }
        s.sparse_init(self, 0)?;
        proof {
            lemma_same_shape_renders(fresh, s, f.val_spec());
        }
        Ok(s)
    }

    /// Deserializes the root document and resolves it. Fails with `NotInState` when the store
    /// has no root document.
    pub fn parse_root(&self) -> (r: Result<SparseSelector, SparseError>)
        requires
            self.wf(),
        ensures
            self.file_spec(self.root_spec()) is None ==> (r matches Err(SparseError::NotInState)),
            r matches Ok(s) ==> (self.file_spec(self.root_spec()) matches Some(f) && renders(
                s,
                f.val_spec(),
            ) && resolved(s, *self, 0)),
            self.file_spec(self.root_spec()) matches Some(f) ==> match tree_error(
                f.val_spec(),
                self.root_spec(),
                *self,
                0,
            ) {
                None => r is Ok,
                Some(x) => r matches Err(e) && failure_matches(e, x),
            },
    {
        let root = self.get_root_path();
        let f = self.get_state_file(root.as_str())?;
        let mut s = SparseSelector::from_tree(f.val(), root.as_str());
        let ghost fresh = s;
        proof {
            lemma_unresolved_based(fresh, root@);
            lemma_rendered_resolvable(fresh, f.val_spec(), root@, *self, 0);
        }
        s.sparse_init(self, 0)?;
        proof {
            lemma_same_shape_renders(fresh, s, f.val_spec());
        }
        Ok(s)
    }
}

/// Once the working value of a write view has been saved and the root brought up to date,
/// every reference of the root value to the place it was written holds that value.
pub proof fn lemma_saved_value_visible(
    previous: Tree,
    saved: SparseRoot,
    updated: SparseRoot,
    view: SparseValueMut,
)
    requires
        saved.state_spec().file_spec(view.path@) matches Some(g) && replaced(
            previous,
            g.val_spec(),
            match view.pointer {
                Some(p) => p@,
                None => Seq::empty(),
            },
            view.val,
        ),
        updated.state_spec() == saved.state_spec(),
        updated.synced(),
    ensures
        refs_render_at(
            updated.val_spec(),
            view.path@,
            match view.pointer {
                Some(p) => p@,
                None => Seq::empty(),
            },
            view.val,
        ),
{
    let p = match view.pointer {
        Some(p) => p@,
        None => Seq::empty(),
    };
    let g = saved.state_spec().file_spec(view.path@)->Some_0;
    lemma_replaced_pointer(previous, g.val_spec(), p, view.val);
    lemma_resolved_refs_render(updated.val_spec(), updated.state_spec(), 0, view.path@, p, view.val);
}

/// Without a save the store does not change, so an update (which then succeeds, by the
/// contract of `sparse_updt`) leaves every reference yielding what it yielded before: in
/// the root value before and after, each reference to a place of a document holds what the
/// unchanged store has there.
pub proof fn lemma_update_without_save(
    before: SparseRoot,
    after: SparseRoot,
    path: Seq<char>,
    ptr: Seq<char>,
    t: Tree,
)
    requires
        before.synced(),
        after.synced(),
        after.state_spec() == before.state_spec(),
        before.state_spec().file_spec(path) matches Some(f) && pointer_spec(f.val_spec(), ptr)
            == Some(t),
    ensures
        refs_render_at(before.val_spec(), path, ptr, t),
        refs_render_at(after.val_spec(), path, ptr, t),
{
    lemma_resolved_refs_render(before.val_spec(), before.state_spec(), 0, path, ptr, t);
    lemma_resolved_refs_render(after.val_spec(), after.state_spec(), 0, path, ptr, t);
}

} // verus!
