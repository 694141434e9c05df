use vstd::prelude::*;

use crate::MAX_SPARSE_DEPTH;
use crate::resolution::check_version_spec;
use crate::resolution::consistent;
use crate::resolution::failure_matches;
use crate::resolution::point_error;
use crate::resolution::sel_entries_error;
use crate::resolution::selector_error;
use crate::resolution::sels_error;
use crate::resolution::lemma_rendered_resolvable;
use crate::resolution::lemma_resolved_consistent;
use crate::resolution::lemma_same_shape_based;
use crate::resolution::lemma_same_shape_refl;
use crate::resolution::lemma_same_shape_renders;
use crate::resolution::lemma_unresolved_based;
use crate::resolution::ref_text;
use crate::resolution::renders;
use crate::resolution::resolved;
use crate::resolution::same_shape;
use crate::resolution::serializes;
use crate::resolution::unresolved;
use crate::sparse_errors::SparseError;
use crate::sparse_ref_utils::SparseRefUtils;
use crate::sparse_ref_utils::pointer_text_spec;
use crate::sparse_ref_utils::target_path_spec;
use crate::sparse_state::SparseState;
use crate::tree::Tree;
use crate::tree::pointer_spec;

verus! {

/// # A value of a document as the engine holds it
///
/// Inline data, or a reference (`{"$ref": "..."}`) to a value found elsewhere.
#[derive(Debug)]
pub enum SparseSelector {
    Null,
    Bool(bool),
    Number(String),
    Str(String),
    Array(Vec<SparseSelector>),
    Object(Vec<(String, SparseSelector)>),
    Ref(Box<SparseRefRaw>),
}

/// # A reference as written in a document
///
/// The raw `$ref` text and the path of the file it appears in; once resolved, also the
/// descriptor and the pointed value.
#[derive(Debug)]
pub struct SparseRefRaw {
    /// The `$ref` text.
    pub raw_pointer: String,
    /// The path of the file in which the reference appears.
    pub base_path: String,
    /// The resolved reference; `None` until it is resolved.
    pub val: Option<SparseRef>,
}

/// # A resolved reference
#[derive(Debug)]
pub struct SparseRef {
    /// The descriptor, with the target document's version when it was resolved.
    pub utils: SparseRefUtils,
    /// The pointed value, itself resolved.
    pub val: Box<SparseSelector>,
}

/// Fails with `CyclicRef` once `depth` reaches the bound.
pub fn check_depth(depth: u32) -> (r: Result<(), SparseError>)
    ensures
        r is Ok <==> depth < MAX_SPARSE_DEPTH,
        r is Err ==> r matches Err(SparseError::CyclicRef),
{
    if depth < MAX_SPARSE_DEPTH {
        Ok(())
    } else {
        Err(SparseError::CyclicRef)
    }
}

fn ref_key() -> (r: &'static str)
    ensures
        r@ == seq!['$', 'r', 'e', 'f'],
{
    let r = "$ref";
    proof {
        reveal_strlit("$ref");
        assert(r@ =~= seq!['$', 'r', 'e', 'f']);
    }
    r
}

fn ref_key_chars() -> (r: Vec<char>)
    ensures
        r@ == seq!['$', 'r', 'e', 'f'],
{
    crate::tree::chars_of(ref_key())
}

/// The text of the `$ref` entry of `t`, when `t` is an object with a string `$ref`.
fn ref_entry(t: &Tree) -> (r: Option<&String>)
    ensures
        match r {
            Some(s) => ref_text(*t) == Some(s@),
            None => ref_text(*t) is None,
        },
{
    match t {
        Tree::Object(v) => match Tree::key_position(v, &ref_key_chars()) {
            Some(k) => match &v[k].1 {
                Tree::Str(s) => Some(s),
                _ => None,
            },
            None => None,
        },
        _ => None,
    }
}

impl SparseSelector {
    /// Deserializes `t`, found in the file at `base`: objects with a string `$ref` entry
    /// become unresolved references.
    pub fn from_tree(t: &Tree, base: &str) -> (r: Self)
        ensures
            renders(r, *t),
            unresolved(r, base@),
        decreases t,
    {
        if let Some(raw) = ref_entry(t) {
            return SparseSelector::Ref(
                Box::new(
                    SparseRefRaw {
                        raw_pointer: raw.clone(),
                        base_path: String::from_str(base),
                        val: None,
                    },
                ),
            );
        }
        match t {
            Tree::Null => SparseSelector::Null,
            Tree::Bool(b) => SparseSelector::Bool(*b),
            Tree::Number(n) => SparseSelector::Number(n.clone()),
            Tree::Str(x) => SparseSelector::Str(x.clone()),
            Tree::Array(w) => {
                let mut out: Vec<SparseSelector> = Vec::new();
                let mut i: usize = 0;
                while i < w.len()
                    invariant
                        0 <= i <= w.len(),
                        out.len() == i,
                        *t == Tree::Array(*w),
                        forall|j: int|
                            0 <= j < i ==> renders(#[trigger] out@[j], w@[j]) && unresolved(
                                out@[j],
                                base@,
                            ),
                    decreases w.len() - i,
                {
                    proof {
                        vstd::std_specs::vec::axiom_vec_index_decreases(*w, i as int);
                        assert(decreases_to!(*t => (*t)->Array_0));
                        assert(decreases_to!(*w => w[i as int]));
                        assert(decreases_to!(*t => w@[i as int]));
                    }
                    out.push(SparseSelector::from_tree(&w[i], base));
                    i = i + 1;
                }
                SparseSelector::Array(out)
            },
            Tree::Object(w) => {
                let mut out: Vec<(String, SparseSelector)> = Vec::new();
                let mut i: usize = 0;
                while i < w.len()
                    invariant
                        0 <= i <= w.len(),
                        out.len() == i,
                        *t == Tree::Object(*w),
                        forall|j: int|
                            0 <= j < i ==> (#[trigger] out@[j]).0@ == w@[j].0@ && renders(
                                out@[j].1,
                                w@[j].1,
                            ) && unresolved(out@[j].1, base@),
                    decreases w.len() - i,
                {
                    proof {
                        vstd::std_specs::vec::axiom_vec_index_decreases(*w, i as int);
                        assert(decreases_to!(*t => (*t)->Object_0));
                        assert(decreases_to!(*w => w[i as int]));
                        assert(decreases_to!(*t => w@[i as int].1));
                    }
                    let c = SparseSelector::from_tree(&w[i].1, base);
                    out.push((w[i].0.clone(), c));
                    i = i + 1;
                }
                SparseSelector::Object(out)
            },
        }
    }

    /// Serializes this value back into a tree; references are written as `{"$ref": ...}`.
    pub fn to_tree(&self) -> (r: Tree)
        ensures
            serializes(*self, r),
        decreases self,
    {
        match self {
            SparseSelector::Null => Tree::Null,
            SparseSelector::Bool(b) => Tree::Bool(*b),
            SparseSelector::Number(n) => Tree::Number(n.clone()),
            SparseSelector::Str(x) => Tree::Str(x.clone()),
            SparseSelector::Array(v) => {
                let mut out: Vec<Tree> = Vec::new();
                let mut i: usize = 0;
                while i < v.len()
                    invariant
                        0 <= i <= v.len(),
                        out.len() == i,
                        *self == SparseSelector::Array(*v),
                        forall|j: int| 0 <= j < i ==> serializes(v@[j], #[trigger] out@[j]),
                    decreases v.len() - i,
                {
                    proof {
                        vstd::std_specs::vec::axiom_vec_index_decreases(*v, i as int);
                        assert(decreases_to!(*self => (*self)->Array_0));
                        assert(decreases_to!(*v => v[i as int]));
                        assert(decreases_to!(*self => v@[i as int]));
                    }
                    out.push(v[i].to_tree());
                    i = i + 1;
                }
                Tree::Array(out)
            },
            SparseSelector::Object(v) => {
                let mut out: Vec<(String, Tree)> = Vec::new();
                let mut i: usize = 0;
                while i < v.len()
                    invariant
                        0 <= i <= v.len(),
                        out.len() == i,
                        *self == SparseSelector::Object(*v),
                        forall|j: int|
                            0 <= j < i ==> v@[j].0@ == (#[trigger] out@[j]).0@ && serializes(
                                v@[j].1,
                                out@[j].1,
                            ),
                    decreases v.len() - i,
                {
                    proof {
                        vstd::std_specs::vec::axiom_vec_index_decreases(*v, i as int);
                        assert(decreases_to!(*self => (*self)->Object_0));
                        assert(decreases_to!(*v => v[i as int]));
                        assert(decreases_to!(*self => v@[i as int].1));
                    }
                    let c = v[i].1.to_tree();
                    out.push((v[i].0.clone(), c));
                    i = i + 1;
                }
                Tree::Object(out)
            },
            SparseSelector::Ref(r) => {
                let mut out: Vec<(String, Tree)> = Vec::new();
                out.push((String::from_str(ref_key()), Tree::Str(r.raw_pointer.clone())));
                Tree::Object(out)
            },
        }
    }

    /// Checks that a resolved reference still matches the version of its target document:
    /// `OutdatedPointer` when it does not, `BadPointer` when it was never resolved. Inline
    /// values are always current.
    pub fn check_version(&self, state: &SparseState) -> (r: Result<(), SparseError>)
        requires
            state.wf(),
        ensures
            r == check_version_spec(*self, *state),
    {
        match self {
            SparseSelector::Ref(r) => match &r.val {
                None => Err(SparseError::BadPointer),
                Some(sr) => {
                    let f = state.get_state_file(sr.utils.pfile_path.as_str())?;
                    if f.version() == sr.utils.version {
                        Ok(())
                    } else {
                        Err(SparseError::OutdatedPointer)
                    }
                },
            },
            _ => Ok(()),
        }
    }
}

impl SparseSelector {
    /// Resolves every reference in this value against `state`, depth first, each level of
    /// nesting or indirection one step deeper than `depth`. Resolution is done afresh, whatever
    /// was cached.
    pub fn sparse_init(&mut self, state: &SparseState, depth: u32) -> (r: Result<(), SparseError>)
        requires
            state.wf(),
        ensures
            same_shape(*old(self), *final(self)),
            r is Ok ==> resolved(*final(self), *state, depth as int),
            match selector_error(*old(self), *state, depth as int) {
                None => r is Ok,
                Some(f) => r matches Err(e) && failure_matches(e, f),
            },
            consistent(*old(self), *state) ==> consistent(*final(self), *state),
            depth >= MAX_SPARSE_DEPTH && (*old(self) is Array || *old(self) is Object
                || *old(self) is Ref) ==> (r matches Err(SparseError::CyclicRef)) && *final(self)
                == *old(self),
        decreases MAX_SPARSE_DEPTH - depth, 1int,
    {
        proof {
            lemma_same_shape_refl(*self);
        }
        match self {
            SparseSelector::Array(v) => {
                check_depth(depth)?;
                let ghost old_v = v@;
                let mut i: usize = 0;
                let mut result: Result<(), SparseError> = Ok(());
                while i < v.len() && result.is_ok()
                    invariant
                        0 <= i <= v.len(),
                        v.len() == old_v.len(),
                        depth < MAX_SPARSE_DEPTH,
                        state.wf(),
                        result is Ok ==> forall|j: int| 0 <= j < i ==> resolved(#[trigger] v@[j], *state, depth + 1),
                        result is Ok ==> sels_error(old_v, *state, depth as int, 0) == sels_error(
                            old_v,
                            *state,
                            depth as int,
                            i as int,
                        ),
                        result matches Err(e) ==> (sels_error(old_v, *state, depth as int, 0) matches Some(
                            f,
                        ) && failure_matches(e, f)),
                        forall|j: int| 0 <= j < i ==> same_shape(old_v[j], #[trigger] v@[j]),
                        (forall|j: int| 0 <= j < old_v.len() ==> consistent(#[trigger] old_v[j], *state))
                            ==> forall|j: int| 0 <= j < i ==> consistent(#[trigger] v@[j], *state),
                        forall|j: int| i <= j < v.len() ==> #[trigger] v@[j] == old_v[j],
                    decreases v.len() - i,
                {
                    let mut e = SparseSelector::Null;
                    v.set_and_swap(i, &mut e);
                    result = e.sparse_init(state, depth + 1);
                    v.set_and_swap(i, &mut e);
                    i = i + 1;
                }
                proof {
                    assert forall|j: int| 0 <= j < v.len() implies same_shape(
                        old_v[j],
                        #[trigger] v@[j],
                    ) by {
                        if j >= i {
                            lemma_same_shape_refl(v@[j]);
                        }
                    }
                }
                result
            },
            SparseSelector::Object(v) => {
                check_depth(depth)?;
                let ghost old_v = v@;
                let mut i: usize = 0;
                let mut result: Result<(), SparseError> = Ok(());
                while i < v.len() && result.is_ok()
                    invariant
                        0 <= i <= v.len(),
                        v.len() == old_v.len(),
                        depth < MAX_SPARSE_DEPTH,
                        state.wf(),
                        forall|j: int|
                            0 <= j < i ==> result is Ok ==> resolved((#[trigger] v@[j]).1, *state, depth + 1),
                        result is Ok ==> sel_entries_error(old_v, *state, depth as int, 0)
                            == sel_entries_error(old_v, *state, depth as int, i as int),
                        result matches Err(e) ==> (sel_entries_error(old_v, *state, depth as int, 0) matches Some(
                            f,
                        ) && failure_matches(e, f)),
                        forall|j: int|
                            0 <= j < i ==> old_v[j].0@ == (#[trigger] v@[j]).0@ && same_shape(
                                old_v[j].1,
                                v@[j].1,
                            ),
                        (forall|j: int| 0 <= j < old_v.len() ==> consistent((#[trigger] old_v[j]).1, *state))
                            ==> forall|j: int| 0 <= j < i ==> consistent((#[trigger] v@[j]).1, *state),
                        forall|j: int| i <= j < v.len() ==> #[trigger] v@[j] == old_v[j],
                    decreases v.len() - i,
                {
                    let mut e: (String, SparseSelector) = (String::new(), SparseSelector::Null);
                    v.set_and_swap(i, &mut e);
                    result = e.1.sparse_init(state, depth + 1);
                    v.set_and_swap(i, &mut e);
                    i = i + 1;
                }
                proof {
                    assert forall|j: int| 0 <= j < v.len() implies old_v[j].0@ == (
                    #[trigger] v@[j]).0@ && same_shape(old_v[j].1, v@[j].1) by {
                        if j >= i {
                            lemma_same_shape_refl(v@[j].1);
                        }
                    }
                }
                result
            },
            SparseSelector::Ref(b) => {
                check_depth(depth)?;
                b.sparse_init(state, depth)
            },
            _ => Ok(()),
        }
    }

    /// Brings this value up to date with `state`: references whose target document changed
    /// since they were resolved, or that were never resolved, are resolved afresh; the others
    /// keep their cached value, itself brought up to date.
    pub fn sparse_updt(&mut self, state: &SparseState, depth: u32) -> (r: Result<(), SparseError>)
        requires
            state.wf(),
            consistent(*old(self), *state),
        ensures
            same_shape(*old(self), *final(self)),
            r is Ok ==> resolved(*final(self), *state, depth as int),
            match selector_error(*old(self), *state, depth as int) {
                None => r is Ok,
                Some(f) => r matches Err(e) && failure_matches(e, f),
            },
            consistent(*old(self), *state) ==> consistent(*final(self), *state),
            depth >= MAX_SPARSE_DEPTH && (*old(self) is Array || *old(self) is Object
                || *old(self) is Ref) ==> (r matches Err(SparseError::CyclicRef)) && *final(self)
                == *old(self),
        decreases MAX_SPARSE_DEPTH - depth, 1int,
    {
        proof {
            lemma_same_shape_refl(*self);
        }
        match self {
            SparseSelector::Array(v) => {
                check_depth(depth)?;
                let ghost old_v = v@;
                let mut i: usize = 0;
                let mut result: Result<(), SparseError> = Ok(());
                while i < v.len() && result.is_ok()
                    invariant
                        0 <= i <= v.len(),
                        v.len() == old_v.len(),
                        depth < MAX_SPARSE_DEPTH,
                        state.wf(),
                        forall|j: int| 0 <= j < old_v.len() ==> consistent(#[trigger] old_v[j], *state),
                        result is Ok ==> forall|j: int| 0 <= j < i ==> resolved(#[trigger] v@[j], *state, depth + 1),
                        result is Ok ==> sels_error(old_v, *state, depth as int, 0) == sels_error(
                            old_v,
                            *state,
                            depth as int,
                            i as int,
                        ),
                        result matches Err(e) ==> (sels_error(old_v, *state, depth as int, 0) matches Some(
                            f,
                        ) && failure_matches(e, f)),
                        forall|j: int| 0 <= j < i ==> same_shape(old_v[j], #[trigger] v@[j]),
                        (forall|j: int| 0 <= j < old_v.len() ==> consistent(#[trigger] old_v[j], *state))
                            ==> forall|j: int| 0 <= j < i ==> consistent(#[trigger] v@[j], *state),
                        forall|j: int| i <= j < v.len() ==> #[trigger] v@[j] == old_v[j],
                    decreases v.len() - i,
                {
                    let mut e = SparseSelector::Null;
                    v.set_and_swap(i, &mut e);
                    result = e.sparse_updt(state, depth + 1);
                    v.set_and_swap(i, &mut e);
                    i = i + 1;
                }
                proof {
                    assert forall|j: int| 0 <= j < v.len() implies same_shape(
                        old_v[j],
                        #[trigger] v@[j],
                    ) by {
                        if j >= i {
                            lemma_same_shape_refl(v@[j]);
                        }
                    }
                }
                result
            },
            SparseSelector::Object(v) => {
                check_depth(depth)?;
                let ghost old_v = v@;
                let mut i: usize = 0;
                let mut result: Result<(), SparseError> = Ok(());
                while i < v.len() && result.is_ok()
                    invariant
                        0 <= i <= v.len(),
                        v.len() == old_v.len(),
                        depth < MAX_SPARSE_DEPTH,
                        state.wf(),
                        forall|j: int|
                            0 <= j < old_v.len() ==> consistent((#[trigger] old_v[j]).1, *state),
                        forall|j: int|
                            0 <= j < i ==> result is Ok ==> resolved((#[trigger] v@[j]).1, *state, depth + 1),
                        result is Ok ==> sel_entries_error(old_v, *state, depth as int, 0)
                            == sel_entries_error(old_v, *state, depth as int, i as int),
                        result matches Err(e) ==> (sel_entries_error(old_v, *state, depth as int, 0) matches Some(
                            f,
                        ) && failure_matches(e, f)),
                        forall|j: int|
                            0 <= j < i ==> old_v[j].0@ == (#[trigger] v@[j]).0@ && same_shape(
                                old_v[j].1,
                                v@[j].1,
                            ),
                        (forall|j: int| 0 <= j < old_v.len() ==> consistent((#[trigger] old_v[j]).1, *state))
                            ==> forall|j: int| 0 <= j < i ==> consistent((#[trigger] v@[j]).1, *state),
                        forall|j: int| i <= j < v.len() ==> #[trigger] v@[j] == old_v[j],
                    decreases v.len() - i,
                {
                    let mut e: (String, SparseSelector) = (String::new(), SparseSelector::Null);
                    v.set_and_swap(i, &mut e);
                    result = e.1.sparse_updt(state, depth + 1);
                    v.set_and_swap(i, &mut e);
                    i = i + 1;
                }
                proof {
                    assert forall|j: int| 0 <= j < v.len() implies old_v[j].0@ == (
                    #[trigger] v@[j]).0@ && same_shape(old_v[j].1, v@[j].1) by {
                        if j >= i {
                            lemma_same_shape_refl(v@[j].1);
                        }
                    }
                }
                result
            },
            SparseSelector::Ref(b) => {
                check_depth(depth)?;
                b.sparse_updt(state, depth)
            },
            _ => Ok(()),
        }
    }
}

impl SparseRefRaw {
    /// An unresolved reference `raw_pointer`, found in the file at `base_path`.
    pub fn new(raw_pointer: String, base_path: String) -> (r: Self)
        ensures
            r.raw_pointer == raw_pointer,
            r.base_path == base_path,
            r.val is None,
    {
        SparseRefRaw { raw_pointer, base_path, val: None }
    }
}

impl SparseRef {
    /// Resolves the reference `raw_pointer`, found in the file at `path`, against `state`;
    /// its value is resolved one level deeper than `depth`.
    pub fn new(state: &SparseState, path: &str, raw_pointer: String, depth: u32) -> (r: Result<
        SparseRef,
        SparseError,
    >)
        requires
            state.wf(),
        ensures
            match point_error(raw_pointer@, path@, *state, depth as int) {
                None => r is Ok,
                Some(f) => r matches Err(e) && failure_matches(e, f),
            },
            r matches Ok(sr) ==> ({
                &&& sr.utils.raw_pointer@ == raw_pointer@
                &&& sr.utils.pfile_path@ == target_path_spec(raw_pointer@, path@)
                &&& sr.utils.pointer@ == pointer_text_spec(raw_pointer@)
                &&& state.file_spec(sr.utils.pfile_path@) matches Some(f) && sr.utils.version
                    == f.version_spec() && (pointer_spec(f.val_spec(), sr.utils.pointer@) matches Some(
                    t,
                ) && renders(*sr.val, t))
                &&& resolved(*sr.val, *state, depth + 1)
            }),
    {
        let mut raw = SparseRefRaw::new(raw_pointer, String::from_str(path));
        raw.sparse_init(state, depth)?;
        match raw.val {
            Some(sr) => Ok(sr),
            None => Err(SparseError::BadPointer),
        }
    }
}

impl SparseRefRaw {
    /// Resolves this reference afresh: derives its descriptor, finds the target document in
    /// `state`, deserializes the value at the pointer and resolves it one level deeper.
    pub fn sparse_init(&mut self, state: &SparseState, depth: u32) -> (r: Result<(), SparseError>)
        requires
            state.wf(),
        ensures
            final(self).raw_pointer == old(self).raw_pointer,
            final(self).base_path == old(self).base_path,
            r is Ok ==> resolved(SparseSelector::Ref(Box::new(*final(self))), *state, depth as int),
            match point_error(old(self).raw_pointer@, old(self).base_path@, *state, depth as int) {
                None => r is Ok,
                Some(f) => r matches Err(e) && failure_matches(e, f),
            },
            depth >= MAX_SPARSE_DEPTH ==> *final(self) == *old(self),
            depth < MAX_SPARSE_DEPTH ==> consistent(SparseSelector::Ref(Box::new(*final(self))), *state),
        decreases MAX_SPARSE_DEPTH - depth, 0int,
    {
        check_depth(depth)?;
        self.val = None;
        let mut utils = SparseRefUtils::new(self.raw_pointer.clone(), self.base_path.as_str());
        let file = match state.get_state_file(utils.pfile_path.as_str()) {
            Ok(f) => f,
            Err(_) => {
                if state.is_in_memory() {
                    return Err(SparseError::NoDistantFile);
                } else {
                    return Err(SparseError::FileNeeded(utils.pfile_path.clone()));
                }
            },
        };
        let t = match file.val().pointer(utils.pointer.as_str()) {
            Some(t) => t,
            None => {
                return Err(SparseError::UnknownPath(utils.pointer.clone()));
            },
        };
        let mut payload = SparseSelector::from_tree(t, utils.pfile_path.as_str());
        let ghost fresh = payload;
        proof {
            lemma_unresolved_based(fresh, utils.pfile_path@);
            lemma_rendered_resolvable(fresh, *t, utils.pfile_path@, *state, depth + 1);
        }
        utils.version = file.version();
        let r = payload.sparse_init(state, depth + 1);
        if r.is_err() {
            return r;
        }
        proof {
            lemma_same_shape_renders(fresh, payload, *t);
            lemma_unresolved_based(fresh, utils.pfile_path@);
            lemma_same_shape_based(fresh, payload, utils.pfile_path@);
        }
        self.val = Some(SparseRef { utils, val: Box::new(payload) });
        proof {
            lemma_resolved_consistent(SparseSelector::Ref(Box::new(*self)), *state, depth as int);
        }
        Ok(())
    }

    /// Brings this reference up to date with `state`: resolves it afresh when it was never
    /// resolved or its target document changed since, else brings its value up to date.
    pub fn sparse_updt(&mut self, state: &SparseState, depth: u32) -> (r: Result<(), SparseError>)
        requires
            state.wf(),
            consistent(SparseSelector::Ref(Box::new(*old(self))), *state),
        ensures
            final(self).raw_pointer == old(self).raw_pointer,
            final(self).base_path == old(self).base_path,
            r is Ok ==> resolved(SparseSelector::Ref(Box::new(*final(self))), *state, depth as int),
            match point_error(old(self).raw_pointer@, old(self).base_path@, *state, depth as int) {
                None => r is Ok,
                Some(f) => r matches Err(e) && failure_matches(e, f),
            },
            depth >= MAX_SPARSE_DEPTH ==> *final(self) == *old(self),
            consistent(SparseSelector::Ref(Box::new(*final(self))), *state),
        decreases MAX_SPARSE_DEPTH - depth, 0int,
    {
        check_depth(depth)?;
        let current = match &self.val {
            None => false,
            Some(sr) => {
                let f = state.get_state_file(sr.utils.pfile_path.as_str())?;
                f.version() == sr.utils.version
            },
        };
        if !current {
            return self.sparse_init(state, depth);
        }
        let mut taken: Option<SparseRef> = None;
        std::mem::swap(&mut self.val, &mut taken);
        let mut sr = match taken {
            Some(sr) => sr,
            None => {
                return self.sparse_init(state, depth);
            },
        };
        let ghost before = *sr.val;
        proof {
            let f = state.file_spec(sr.utils.pfile_path@)->Some_0;
            let t = pointer_spec(f.val_spec(), sr.utils.pointer@)->Some_0;
            lemma_rendered_resolvable(before, t, sr.utils.pfile_path@, *state, depth + 1);
        }
        let r = sr.val.sparse_updt(state, depth + 1);
        proof {
            let f = state.file_spec(sr.utils.pfile_path@)->Some_0;
            let t = pointer_spec(f.val_spec(), sr.utils.pointer@)->Some_0;
            lemma_same_shape_renders(before, *sr.val, t);
            lemma_same_shape_based(before, *sr.val, sr.utils.pfile_path@);
        }
        self.val = Some(sr);
        r
    }
}

} // verus!
