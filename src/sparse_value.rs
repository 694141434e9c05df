use vstd::prelude::*;

use crate::resolution::check_version_spec;
use crate::resolution::resolved;
use crate::resolution::serializes;
use crate::resolution::failure_matches;
use crate::resolution::point_error;
use crate::sparse_errors::SparseError;
use crate::sparse_ref_utils::SparseRefUtils;
use crate::sparse_selector::SparseRefRaw;
use crate::sparse_selector::SparseSelector;
use crate::sparse_state::save_outcome;
use crate::sparse_state::SparseState;
use crate::tree::Tree;

verus! {

/// # A read view
///
/// A value reached through the engine, with the descriptor of the reference it was reached
/// through, if any.
#[derive(Debug)]
pub struct SparseValue<'a> {
    sref: &'a SparseSelector,
    metadata: Option<&'a SparseRefUtils>,
}

impl<'a> SparseValue<'a> {
    pub closed spec fn sref_spec(&self) -> SparseSelector {
        *self.sref
    }

    pub closed spec fn metadata_spec(&self) -> Option<SparseRefUtils> {
        match self.metadata {
            Some(m) => Some(*m),
            None => None,
        }
    }

    pub fn new(sref: &'a SparseSelector, metadata: Option<&'a SparseRefUtils>) -> (r: Self)
        ensures
            r.sref_spec() == *sref,
            r.metadata_spec() == match metadata {
                Some(m) => Some(*m),
                None => None::<SparseRefUtils>,
            },
    {
        SparseValue { sref, metadata }
    }

    /// The value.
    pub fn val(&self) -> (r: &'a SparseSelector)
        ensures
            *r == self.sref_spec(),
    {
        self.sref
    }

    /// The descriptor of the reference the value was reached through.
    pub fn metadata(&self) -> (r: Option<&'a SparseRefUtils>)
        ensures
            match r {
                Some(m) => self.metadata_spec() == Some(*m),
                None => self.metadata_spec() is None,
            },
    {
        self.metadata
    }

    /// Resolves `ptr` as a reference written in the document this value comes from (the root
    /// document when it was not reached through a reference).
    pub fn try_deref_raw_pointer(&self, ptr: String, state: &SparseState) -> (r: Result<
        SparseSelector,
        SparseError,
    >)
        requires
            state.wf(),
        ensures
            r matches Ok(s) ==> resolved(s, *state, 0) && (s matches SparseSelector::Ref(b)
                && b.raw_pointer == ptr && b.base_path@ == match self.metadata_spec() {
                Some(m) => m.pfile_path@,
                None => state.root_spec(),
            }),
            match point_error(
                ptr@,
                match self.metadata_spec() {
                    Some(m) => m.pfile_path@,
                    None => state.root_spec(),
                },
                *state,
                0,
            ) {
                None => r is Ok,
                Some(f) => r matches Err(e) && failure_matches(e, f),
            },
    {
        let base: String = match self.metadata {
            Some(m) => m.pfile_path.clone(),
            None => state.get_root_path().clone(),
        };
        let mut raw = SparseRefRaw { raw_pointer: ptr, base_path: base, val: None };
        raw.sparse_init(state, 0)?;
        Ok(SparseSelector::Ref(Box::new(raw)))
    }
}

/// # A write view
///
/// A working copy of a value, with the place it is written back to: a document of the
/// store, and a pointer inside it (none for a whole document).
#[derive(Debug)]
pub struct SparseValueMut {
    /// The version of the document when the view was taken.
    pub version: u64,
    /// The path of the document.
    pub path: String,
    /// The pointer inside the document; `None` for the whole document.
    pub pointer: Option<String>,
    /// The value, to be edited and then saved.
    pub val: Tree,
}

impl SparseValueMut {
    /// A write view of the value that `metadata` resolved to.
    pub fn new(val: Tree, metadata: &SparseRefUtils) -> (r: Self)
        ensures
            r.val == val,
            r.version == metadata.version,
            r.path == metadata.pfile_path,
            r.pointer == Some(metadata.pointer),
    {
        SparseValueMut {
            version: metadata.version,
            path: metadata.pfile_path.clone(),
            pointer: Some(metadata.pointer.clone()),
            val,
        }
    }

    /// A write view of a whole document.
    pub fn new_root(val: Tree, path: String, version: u64) -> (r: Self)
        ensures
            r.val == val,
            r.version == version,
            r.path == path,
            r.pointer is None,
    {
        SparseValueMut { version, path, pointer: None, val }
    }

    /// Resolves `ptr` as a reference written in the document of this view.
    pub fn try_deref_raw_pointer(&self, ptr: String, state: &SparseState) -> (r: Result<
        SparseSelector,
        SparseError,
    >)
        requires
            state.wf(),
        ensures
            r matches Ok(s) ==> resolved(s, *state, 0) && (s matches SparseSelector::Ref(b)
                && b.raw_pointer == ptr && b.base_path == self.path),
            match point_error(ptr@, self.path@, *state, 0) {
                None => r is Ok,
                Some(f) => r matches Err(e) && failure_matches(e, f),
            },
    {
        let mut raw = SparseRefRaw::new(ptr, self.path.clone());
        raw.sparse_init(state, 0)?;
        Ok(SparseSelector::Ref(Box::new(raw)))
    }

    /// Replaces the working value.
    pub fn set(&mut self, val: Tree)
        ensures
            final(self).val == val,
            final(self).version == old(self).version,
            final(self).path == old(self).path,
            final(self).pointer == old(self).pointer,
    {
        self.val = val;
    }

    /// Writes the working value into its document and increments the document's version.
    pub fn sparse_save(self, state: &mut SparseState) -> (r: Result<(), SparseError>)
        requires
            old(state).wf(),
        ensures
            save_outcome(
                *old(state),
                *final(state),
                self.path@,
                match self.pointer {
                    Some(p) => p@,
                    None => Seq::empty(),
                },
                self.val,
                r,
            ),
    {
        match &self.pointer {
            Some(p) => state.replace_at(self.path.as_str(), Some(p.as_str()), self.val),
            None => state.replace_at(self.path.as_str(), None, self.val),
        }
    }
}

impl SparseSelector {
    /// The entry `key` of an object (the first one, when there are several).
    pub fn get_key(&self, key: &str) -> (r: Option<&SparseSelector>)
        ensures
            match r {
                Some(c) => *self matches SparseSelector::Object(v) && exists|i: int|
                    0 <= i < v.len() && v@[i].0@ == key@ && v@[i].1 == *c,
                None => !(*self matches SparseSelector::Object(v) && exists|i: int|
                    0 <= i < v.len() && v@[i].0@ == key@),
            },
    {
        match self {
            SparseSelector::Object(v) => {
                let owned: String = key.to_owned();
                let mut i: usize = 0;
                while i < v.len()
                    invariant
                        0 <= i <= v.len(),
                        owned@ == key@,
                        *self == SparseSelector::Object(*v),
                        forall|j: int| 0 <= j < i ==> (#[trigger] v@[j]).0@ != key@,
                    decreases v.len() - i,
                {
                    if v[i].0 == owned {
                        let c = &v[i].1;
                        proof {
                            let k = i as int;
                            assert(0 <= k < v.len() && v@[k].0@ == key@ && v@[k].1 == *c);
                            assert(exists|j: int| 0 <= j < v.len() && v@[j].0@ == key@ && v@[j].1 == *c);
                            assert(*self matches SparseSelector::Object(w) && w == *v);
                        }
                        return Some(c);
                    }
                    i = i + 1;
                }
                None
            },
            _ => None,
        }
    }

    /// The element `i` of an array.
    pub fn get_index(&self, i: usize) -> (r: Option<&SparseSelector>)
        ensures
            match r {
                Some(c) => *self matches SparseSelector::Array(v) && i < v.len() && v@[i as int]
                    == *c,
                None => !(*self matches SparseSelector::Array(v) && i < v.len()),
            },
    {
        match self {
            SparseSelector::Array(v) => if i < v.len() {
                Some(&v[i])
            } else {
                None
            },
            _ => None,
        }
    }

    /// The text of a string value.
    pub fn as_str(&self) -> (r: Option<&String>)
        ensures
            match r {
                Some(x) => *self == SparseSelector::Str(*x),
                None => !(*self is Str),
            },
    {
        match self {
            SparseSelector::Str(x) => Some(x),
            _ => None,
        }
    }

    /// A read view of this value: for a reference, of the value at the end of its chain of
    /// references. Fails with `BadPointer` on a reference that was never resolved.
    pub fn get(&self) -> (r: Result<SparseValue<'_>, SparseError>)
        ensures
            match deref_spec(*self, None) {
                Some((t, m)) => r matches Ok(v) && v.sref_spec() == t && v.metadata_spec() == m,
                None => r matches Err(SparseError::BadPointer),
            },
    {
        SparseSelector::get_from(self, None)
    }

    fn get_from<'a>(s: &'a SparseSelector, m: Option<&'a SparseRefUtils>) -> (r: Result<
        SparseValue<'a>,
        SparseError,
    >)
        ensures
            match deref_spec(
                *s,
                match m {
                    Some(u) => Some(*u),
                    None => None,
                },
            ) {
                Some((t, mm)) => r matches Ok(v) && v.sref_spec() == t && v.metadata_spec() == mm,
                None => r matches Err(SparseError::BadPointer),
            },
        decreases s,
    {
        match s {
            SparseSelector::Ref(b) => match &b.val {
                Some(sr) => SparseSelector::get_from(&sr.val, Some(&sr.utils)),
                None => Err(SparseError::BadPointer),
            },
            _ => Ok(SparseValue::new(s, m)),
        }
    }

    /// A write view of the value at the end of this reference's chain of references, after
    /// checking that each reference of the chain is current in `state`. Fails with
    /// `BadPointer` on inline values and on references never resolved.
    pub fn get_mut(&self, state: &SparseState) -> (r: Result<SparseValueMut, SparseError>)
        requires
            state.wf(),
        ensures
            check_version_spec(*self, *state) is Err ==> r is Err && r->Err_0 == check_version_spec(
                *self,
                *state,
            )->Err_0,
            r matches Ok(v) ==> (deref_spec(*self, None) matches Some((t, Some(m))) && serializes(
                t,
                v.val,
            ) && v.path == m.pfile_path && v.pointer == Some(m.pointer) && v.version == m.version),
            !(*self is Ref) ==> (r matches Err(SparseError::BadPointer)),
            *self is Ref && chain_current(*self, *state) ==> r is Ok,
        decreases self,
    {
        self.check_version(state)?;
        match self {
            SparseSelector::Ref(b) => match &b.val {
                Some(sr) => match &*sr.val {
                    SparseSelector::Ref(_) => {
                        proof {
                            assert(deref_spec(*sr.val, None) == deref_spec(*sr.val, Some(sr.utils)));
                        }
                        sr.val.get_mut(state)
                    },
                    _ => Ok(SparseValueMut::new(sr.val.to_tree(), &sr.utils)),
                },
                None => Err(SparseError::BadPointer),
            },
            _ => Err(SparseError::BadPointer),
        }
    }
}

/// Every reference on the chain that starts at `s` is resolved, at the current version of
/// its target document in `st`.
pub open spec fn chain_current(s: SparseSelector, st: SparseState) -> bool
    decreases s,
{
    match s {
        SparseSelector::Ref(b) => match b.val {
            Some(sr) => st.file_spec(sr.utils.pfile_path@) matches Some(f) && f.version_spec()
                == sr.utils.version && chain_current(*sr.val, st),
            None => false,
        },
        _ => true,
    }
}

/// Where following the references of `s` ends: the value reached, and the descriptor of
/// the last reference followed (`m` when none is); `None` when a reference on the way was
/// never resolved.
pub open spec fn deref_spec(s: SparseSelector, m: Option<SparseRefUtils>) -> Option<
    (SparseSelector, Option<SparseRefUtils>),
>
    decreases s,
{
    match s {
        SparseSelector::Ref(b) => match b.val {
            Some(sr) => deref_spec(*sr.val, Some(sr.utils)),
            None => None,
        },
        _ => Some((s, m)),
    }
}

} // verus!
