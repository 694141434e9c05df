//! What resolution means: how an engine value renders a tree, when a value is resolved
//! against the store or consistent with it, when resolution can succeed, and the laws that
//! tie saving, versions and cycles to these.
use vstd::prelude::*;

use crate::MAX_SPARSE_DEPTH;
use crate::sparse_errors::SparseError;
use crate::sparse_ref_utils::pointer_text_spec;
use crate::sparse_ref_utils::target_path_spec;
use crate::sparse_selector::SparseRef;
use crate::sparse_selector::SparseRefRaw;
use crate::sparse_selector::SparseSelector;
use crate::sparse_state::SparseState;
use crate::sparse_state::SparseStateFile;
use crate::tree::Tree;
use crate::tree::key_index_from;
use crate::tree::pointer_spec;

verus! {

/// The text of the `$ref` entry of `t`, when `t` is an object with a string `$ref`.
pub open spec fn ref_text(t: Tree) -> Option<Seq<char>> {
    match t {
        Tree::Object(v) => {
            let k = key_index_from(v@, seq!['$', 'r', 'e', 'f'], 0);
            if k >= 0 {
                match v@[k].1 {
                    Tree::Str(s) => Some(s@),
                    _ => None,
                }
            } else {
                None
            }
        },
        _ => None,
    }
}

/// `s` is what deserializing `t` gives: the same data, with every object that has a string
/// `$ref` entry read as a reference.
pub open spec fn renders(s: SparseSelector, t: Tree) -> bool
    decreases s,
{
    match s {
        SparseSelector::Null => t is Null,
        SparseSelector::Bool(b) => t == Tree::Bool(b),
        SparseSelector::Number(n) => match t {
            Tree::Number(m) => m@ == n@,
            _ => false,
        },
        SparseSelector::Str(x) => match t {
            Tree::Str(y) => y@ == x@,
            _ => false,
        },
        SparseSelector::Array(v) => match t {
            Tree::Array(w) => w.len() == v.len() && forall|i: int|
                0 <= i < v.len() ==> renders(#[trigger] v@[i], w@[i]),
            _ => false,
        },
        SparseSelector::Object(v) => ref_text(t) is None && match t {
            Tree::Object(w) => w.len() == v.len() && forall|i: int|
                0 <= i < v.len() ==> (#[trigger] v@[i]).0@ == w@[i].0@ && renders(v@[i].1, w@[i].1),
            _ => false,
        },
        SparseSelector::Ref(r) => ref_text(t) == Some(r.raw_pointer@),
    }
}

/// Every reference in `s` is unresolved and was found in the file at `base`.
pub open spec fn unresolved(s: SparseSelector, base: Seq<char>) -> bool
    decreases s,
{
    match s {
        SparseSelector::Array(v) => forall|i: int|
            0 <= i < v.len() ==> unresolved(#[trigger] v@[i], base),
        SparseSelector::Object(v) => forall|i: int|
            0 <= i < v.len() ==> unresolved((#[trigger] v@[i]).1, base),
        SparseSelector::Ref(r) => r.val is None && r.base_path@ == base,
        _ => true,
    }
}

/// `a` and `b` hold the same data and the same references; only what the references
/// resolved to may differ.
pub open spec fn same_shape(a: SparseSelector, b: SparseSelector) -> bool
    decreases a,
{
    match a {
        SparseSelector::Array(v) => match b {
            SparseSelector::Array(w) => w.len() == v.len() && forall|i: int|
                0 <= i < v.len() ==> same_shape(#[trigger] v@[i], w@[i]),
            _ => false,
        },
        SparseSelector::Object(v) => match b {
            SparseSelector::Object(w) => w.len() == v.len() && forall|i: int|
                0 <= i < v.len() ==> (#[trigger] v@[i]).0@ == w@[i].0@ && same_shape(
                    v@[i].1,
                    w@[i].1,
                ),
            _ => false,
        },
        SparseSelector::Ref(r) => match b {
            SparseSelector::Ref(q) => q.raw_pointer@ == r.raw_pointer@ && q.base_path@
                == r.base_path@,
            _ => false,
        },
        SparseSelector::Number(n) => match b {
            SparseSelector::Number(m) => m@ == n@,
            _ => false,
        },
        SparseSelector::Str(x) => match b {
            SparseSelector::Str(y) => y@ == x@,
            _ => false,
        },
        _ => b == a,
    }
}

/// The descriptor of `sr` is the one derived from the raw reference `r`, and its value
/// renders what the pointer names in document `f`.
pub open spec fn ref_matches(r: SparseRefRaw, sr: SparseRef, f: SparseStateFile) -> bool {
    &&& sr.utils.raw_pointer@ == r.raw_pointer@
    &&& sr.utils.pfile_path@ == target_path_spec(r.raw_pointer@, r.base_path@)
    &&& sr.utils.pointer@ == pointer_text_spec(r.raw_pointer@)
    &&& pointer_spec(f.val_spec(), sr.utils.pointer@) matches Some(t) && renders(*sr.val, t)
    &&& based_in(*sr.val, sr.utils.pfile_path@)
}

/// The references of `s` itself (not those inside what they resolved to) were found in the
/// file at `base`.
pub open spec fn based_in(s: SparseSelector, base: Seq<char>) -> bool
    decreases s,
{
    match s {
        SparseSelector::Array(v) => forall|i: int|
            0 <= i < v.len() ==> based_in(#[trigger] v@[i], base),
        SparseSelector::Object(v) => forall|i: int|
            0 <= i < v.len() ==> based_in((#[trigger] v@[i]).1, base),
        SparseSelector::Ref(r) => r.base_path@ == base,
        _ => true,
    }
}

/// Why a resolution fails: the first reference, in document order, that cannot be
/// resolved, and how.
pub enum ResolveFailure {
    /// The pointer (normalized) names no value of its target document.
    UnknownPath(Seq<char>),
    /// The target document is absent and the store is in-memory only.
    NoDistantFile,
    /// The target document at this path is absent and must be loaded.
    FileNeeded(Seq<char>),
    /// The depth bound was reached.
    CyclicRef,
}

/// The error `e` reports the failure `f`.
pub open spec fn failure_matches(e: SparseError, f: ResolveFailure) -> bool {
    match f {
        ResolveFailure::UnknownPath(p) => e matches SparseError::UnknownPath(s) && s@ == p,
        ResolveFailure::NoDistantFile => e is NoDistantFile,
        ResolveFailure::FileNeeded(p) => e matches SparseError::FileNeeded(s) && s@ == p,
        ResolveFailure::CyclicRef => e is CyclicRef,
    }
}

/// How resolving the reference `raw`, found in the file at `base`, against store `st` at
/// `depth` fails, if it does.
pub open spec fn point_error(raw: Seq<char>, base: Seq<char>, st: SparseState, depth: int) -> Option<
    ResolveFailure,
>
    decreases MAX_SPARSE_DEPTH - depth, 0int, 0int,
{
    if depth >= MAX_SPARSE_DEPTH {
        Some(ResolveFailure::CyclicRef)
    } else {
        let tp = target_path_spec(raw, base);
        match st.file_spec(tp) {
            None => if st.in_memory_spec() {
                Some(ResolveFailure::NoDistantFile)
            } else {
                Some(ResolveFailure::FileNeeded(tp))
            },
            Some(f) => match pointer_spec(f.val_spec(), pointer_text_spec(raw)) {
                None => Some(ResolveFailure::UnknownPath(pointer_text_spec(raw))),
                Some(u) => tree_error(u, tp, st, depth + 1),
            },
        }
    }
}

/// How resolving the tree `t`, found in the file at `base`, against store `st` from `depth`
/// on fails, if it does.
pub open spec fn tree_error(t: Tree, base: Seq<char>, st: SparseState, depth: int) -> Option<
    ResolveFailure,
>
    decreases MAX_SPARSE_DEPTH - depth, 2int, 0int,
{
    match ref_text(t) {
        Some(raw) => point_error(raw, base, st, depth),
        None => match t {
            Tree::Array(w) => if depth >= MAX_SPARSE_DEPTH {
                Some(ResolveFailure::CyclicRef)
            } else {
                trees_error(w@, base, st, depth, 0)
            },
            Tree::Object(w) => if depth >= MAX_SPARSE_DEPTH {
                Some(ResolveFailure::CyclicRef)
            } else {
                entries_error(w@, base, st, depth, 0)
            },
            _ => None,
        },
    }
}

/// The first failure among the elements `w[i..]`, one level below `depth`.
pub open spec fn trees_error(w: Seq<Tree>, base: Seq<char>, st: SparseState, depth: int, i: int) -> Option<
    ResolveFailure,
>
    decreases MAX_SPARSE_DEPTH - depth, 1int, w.len() - i,
{
    if i < 0 || i >= w.len() || depth >= MAX_SPARSE_DEPTH {
        None
    } else {
        match tree_error(w[i], base, st, depth + 1) {
            Some(f) => Some(f),
            None => trees_error(w, base, st, depth, i + 1),
        }
    }
}

/// The first failure among the entry values `w[i..]`, one level below `depth`.
pub open spec fn entries_error(
    w: Seq<(String, Tree)>,
    base: Seq<char>,
    st: SparseState,
    depth: int,
    i: int,
) -> Option<ResolveFailure>
    decreases MAX_SPARSE_DEPTH - depth, 1int, w.len() - i,
{
    if i < 0 || i >= w.len() || depth >= MAX_SPARSE_DEPTH {
        None
    } else {
        match tree_error(w[i].1, base, st, depth + 1) {
            Some(f) => Some(f),
            None => entries_error(w, base, st, depth, i + 1),
        }
    }
}

/// How resolving `s` afresh against store `st` from `depth` on fails, if it does (what the
/// references cache does not matter).
pub open spec fn selector_error(s: SparseSelector, st: SparseState, depth: int) -> Option<
    ResolveFailure,
>
    decreases MAX_SPARSE_DEPTH - depth, 2int, 0int,
{
    match s {
        SparseSelector::Array(v) => if depth >= MAX_SPARSE_DEPTH {
            Some(ResolveFailure::CyclicRef)
        } else {
            sels_error(v@, st, depth, 0)
        },
        SparseSelector::Object(v) => if depth >= MAX_SPARSE_DEPTH {
            Some(ResolveFailure::CyclicRef)
        } else {
            sel_entries_error(v@, st, depth, 0)
        },
        SparseSelector::Ref(r) => point_error(r.raw_pointer@, r.base_path@, st, depth),
        _ => None,
    }
}

/// The first failure among the elements `v[i..]`, one level below `depth`.
pub open spec fn sels_error(v: Seq<SparseSelector>, st: SparseState, depth: int, i: int) -> Option<
    ResolveFailure,
>
    decreases MAX_SPARSE_DEPTH - depth, 1int, v.len() - i,
{
    if i < 0 || i >= v.len() || depth >= MAX_SPARSE_DEPTH {
        None
    } else {
        match selector_error(v[i], st, depth + 1) {
            Some(f) => Some(f),
            None => sels_error(v, st, depth, i + 1),
        }
    }
}

/// The first failure among the entry values `v[i..]`, one level below `depth`.
pub open spec fn sel_entries_error(
    v: Seq<(String, SparseSelector)>,
    st: SparseState,
    depth: int,
    i: int,
) -> Option<ResolveFailure>
    decreases MAX_SPARSE_DEPTH - depth, 1int, v.len() - i,
{
    if i < 0 || i >= v.len() || depth >= MAX_SPARSE_DEPTH {
        None
    } else {
        match selector_error(v[i].1, st, depth + 1) {
            Some(f) => Some(f),
            None => sel_entries_error(v, st, depth, i + 1),
        }
    }
}

/// The reference that the reference `raw`, found in the file at `base`, points at, with the
/// file it is found in; `None` when what it points at is no reference.
pub open spec fn next_ref(raw: Seq<char>, base: Seq<char>, st: SparseState) -> Option<
    (Seq<char>, Seq<char>),
> {
    let tp = target_path_spec(raw, base);
    match st.file_spec(tp) {
        Some(f) => match pointer_spec(f.val_spec(), pointer_text_spec(raw)) {
            Some(u) => match ref_text(u) {
                Some(raw2) => Some((raw2, tp)),
                None => None,
            },
            None => None,
        },
        None => None,
    }
}

/// `cycle` lists references (their text and the file they are found in), each pointing at
/// the next and the last at the first.
pub open spec fn is_ref_cycle(cycle: Seq<(Seq<char>, Seq<char>)>, st: SparseState) -> bool {
    &&& cycle.len() > 0
    &&& forall|i: int|
        0 <= i < cycle.len() ==> next_ref(#[trigger] cycle[i].0, cycle[i].1, st) == Some(
            cycle[if i + 1 < cycle.len() {
                i + 1
            } else {
                0
            }],
        )
}

/// Every reference in `s` is resolved against the store `st` as it is now, nesting and
/// indirection staying below the depth bound from `depth` on.
pub open spec fn resolved(s: SparseSelector, st: SparseState, depth: int) -> bool
    decreases s,
{
    match s {
        SparseSelector::Array(v) => depth < MAX_SPARSE_DEPTH && forall|i: int|
            0 <= i < v.len() ==> resolved(#[trigger] v@[i], st, depth + 1),
        SparseSelector::Object(v) => depth < MAX_SPARSE_DEPTH && forall|i: int|
            0 <= i < v.len() ==> resolved((#[trigger] v@[i]).1, st, depth + 1),
        SparseSelector::Ref(r) => depth < MAX_SPARSE_DEPTH && match r.val {
            Some(sr) => st.file_spec(sr.utils.pfile_path@) matches Some(f) && sr.utils.version
                == f.version_spec() && ref_matches(*r, sr, f) && resolved(*sr.val, st, depth + 1),
            None => false,
        },
        _ => true,
    }
}

/// The cache of `s` is consistent with store `st`: a resolved reference points into a
/// document of the store whose version is at least the one it saw, and when the version is
/// the one it saw, it still holds what the pointer names.
pub open spec fn consistent(s: SparseSelector, st: SparseState) -> bool
    decreases s,
{
    match s {
        SparseSelector::Array(v) => forall|i: int|
            0 <= i < v.len() ==> consistent(#[trigger] v@[i], st),
        SparseSelector::Object(v) => forall|i: int|
            0 <= i < v.len() ==> consistent((#[trigger] v@[i]).1, st),
        SparseSelector::Ref(r) => match r.val {
            Some(sr) => st.file_spec(sr.utils.pfile_path@) matches Some(f) && sr.utils.version
                <= f.version_spec() && (sr.utils.version == f.version_spec() ==> ref_matches(
                *r,
                sr,
                f,
            ) && consistent(*sr.val, st)),
            None => true,
        },
        _ => true,
    }
}

/// Every document of `a` is in `b`, unchanged or with a higher version.
pub open spec fn store_grows(a: SparseState, b: SparseState) -> bool {
    forall|q: Seq<char>| #[trigger]
        a.file_spec(q) matches Some(f) ==> b.file_spec(q) matches Some(g) && (g == f
            || g.version_spec() > f.version_spec())
}

/// What checking the version of `s` against `st` gives.
pub open spec fn check_version_spec(s: SparseSelector, st: SparseState) -> Result<(), SparseError> {
    match s {
        SparseSelector::Ref(r) => match r.val {
            None => Err(SparseError::BadPointer),
            Some(sr) => match st.file_spec(sr.utils.pfile_path@) {
                None => Err(SparseError::NotInState),
                Some(f) => if f.version_spec() == sr.utils.version {
                    Ok(())
                } else {
                    Err(SparseError::OutdatedPointer)
                },
            },
        },
        _ => Ok(()),
    }
}

pub proof fn lemma_resolved_consistent(s: SparseSelector, st: SparseState, depth: int)
    requires
        resolved(s, st, depth),
    ensures
        consistent(s, st),
    decreases s,
{
    match s {
        SparseSelector::Array(v) => {
            assert forall|i: int| 0 <= i < v.len() implies consistent(#[trigger] v@[i], st) by {
                lemma_resolved_consistent(v@[i], st, depth + 1);
            }
        },
        SparseSelector::Object(v) => {
            assert forall|i: int| 0 <= i < v.len() implies consistent((#[trigger] v@[i]).1, st) by {
                lemma_resolved_consistent(v@[i].1, st, depth + 1);
            }
        },
        SparseSelector::Ref(r) => {
            if let Some(sr) = r.val {
                lemma_resolved_consistent(*sr.val, st, depth + 1);
            }
        },
        _ => {},
    }
}

pub proof fn lemma_unresolved_consistent(s: SparseSelector, st: SparseState, base: Seq<char>)
    requires
        unresolved(s, base),
    ensures
        consistent(s, st),
    decreases s,
{
    match s {
        SparseSelector::Array(v) => {
            assert forall|i: int| 0 <= i < v.len() implies consistent(#[trigger] v@[i], st) by {
                lemma_unresolved_consistent(v@[i], st, base);
            }
        },
        SparseSelector::Object(v) => {
            assert forall|i: int| 0 <= i < v.len() implies consistent((#[trigger] v@[i]).1, st) by {
                lemma_unresolved_consistent(v@[i].1, st, base);
            }
        },
        _ => {},
    }
}

pub proof fn lemma_consistent_grows(s: SparseSelector, a: SparseState, b: SparseState)
    requires
        consistent(s, a),
        store_grows(a, b),
    ensures
        consistent(s, b),
    decreases s,
{
    match s {
        SparseSelector::Array(v) => {
            assert forall|i: int| 0 <= i < v.len() implies consistent(#[trigger] v@[i], b) by {
                lemma_consistent_grows(v@[i], a, b);
            }
        },
        SparseSelector::Object(v) => {
            assert forall|i: int| 0 <= i < v.len() implies consistent((#[trigger] v@[i]).1, b) by {
                lemma_consistent_grows(v@[i].1, a, b);
            }
        },
        SparseSelector::Ref(r) => {
            if let Some(sr) = r.val {
                let q = sr.utils.pfile_path@;
                assert(a.file_spec(q) is Some);
                let f = a.file_spec(q)->Some_0;
                let g = b.file_spec(q)->Some_0;
                if g == f {
                    if sr.utils.version == f.version_spec() {
                        lemma_consistent_grows(*sr.val, a, b);
                    }
                }
            }
        },
        _ => {},
    }
}

pub proof fn lemma_unresolved_based(s: SparseSelector, base: Seq<char>)
    requires
        unresolved(s, base),
    ensures
        based_in(s, base),
    decreases s,
{
    match s {
        SparseSelector::Array(v) => {
            assert forall|i: int| 0 <= i < v.len() implies based_in(#[trigger] v@[i], base) by {
                lemma_unresolved_based(v@[i], base);
            }
        },
        SparseSelector::Object(v) => {
            assert forall|i: int| 0 <= i < v.len() implies based_in((#[trigger] v@[i]).1, base) by {
                lemma_unresolved_based(v@[i].1, base);
            }
        },
        _ => {},
    }
}

pub proof fn lemma_same_shape_based(a: SparseSelector, b: SparseSelector, base: Seq<char>)
    requires
        same_shape(a, b),
        based_in(a, base),
    ensures
        based_in(b, base),
    decreases a,
{
    match a {
        SparseSelector::Array(v) => {
            if let SparseSelector::Array(w) = b {
                assert forall|i: int| 0 <= i < w.len() implies based_in(#[trigger] w@[i], base) by {
                    lemma_same_shape_based(v@[i], w@[i], base);
                }
            }
        },
        SparseSelector::Object(v) => {
            if let SparseSelector::Object(w) = b {
                assert forall|i: int| 0 <= i < w.len() implies based_in((#[trigger] w@[i]).1, base) by {
                    lemma_same_shape_based(v@[i].1, w@[i].1, base);
                }
            }
        },
        _ => {},
    }
}

proof fn lemma_rendered_elements(
    v: Seq<SparseSelector>,
    w: Seq<Tree>,
    base: Seq<char>,
    st: SparseState,
    depth: int,
    i: int,
)
    requires
        v.len() == w.len(),
        0 <= i <= v.len(),
        forall|j: int|
            0 <= j < v.len() ==> selector_error(#[trigger] v[j], st, depth + 1) == tree_error(
                w[j],
                base,
                st,
                depth + 1,
            ),
    ensures
        sels_error(v, st, depth, i) == trees_error(w, base, st, depth, i),
    decreases v.len() - i,
{
    if i < v.len() {
        lemma_rendered_elements(v, w, base, st, depth, i + 1);
    }
}

proof fn lemma_rendered_entries(
    v: Seq<(String, SparseSelector)>,
    w: Seq<(String, Tree)>,
    base: Seq<char>,
    st: SparseState,
    depth: int,
    i: int,
)
    requires
        v.len() == w.len(),
        0 <= i <= v.len(),
        forall|j: int|
            0 <= j < v.len() ==> selector_error((#[trigger] v[j]).1, st, depth + 1) == tree_error(
                w[j].1,
                base,
                st,
                depth + 1,
            ),
    ensures
        sel_entries_error(v, st, depth, i) == entries_error(w, base, st, depth, i),
    decreases v.len() - i,
{
    if i < v.len() {
        lemma_rendered_entries(v, w, base, st, depth, i + 1);
    }
}

proof fn lemma_no_failing_element(v: Seq<SparseSelector>, st: SparseState, depth: int, i: int)
    requires
        0 <= i <= v.len(),
        forall|j: int| 0 <= j < v.len() ==> selector_error(#[trigger] v[j], st, depth + 1) is None,
    ensures
        sels_error(v, st, depth, i) is None,
    decreases v.len() - i,
{
    if i < v.len() {
        lemma_no_failing_element(v, st, depth, i + 1);
    }
}

proof fn lemma_no_failing_entry(v: Seq<(String, SparseSelector)>, st: SparseState, depth: int, i: int)
    requires
        0 <= i <= v.len(),
        forall|j: int| 0 <= j < v.len() ==> selector_error((#[trigger] v[j]).1, st, depth + 1) is None,
    ensures
        sel_entries_error(v, st, depth, i) is None,
    decreases v.len() - i,
{
    if i < v.len() {
        lemma_no_failing_entry(v, st, depth, i + 1);
    }
}

/// A value resolved against a store resolves afresh against it too.
pub proof fn lemma_resolved_resolvable(s: SparseSelector, st: SparseState, depth: int)
    requires
        resolved(s, st, depth),
    ensures
        selector_error(s, st, depth) is None,
    decreases s,
{
    match s {
        SparseSelector::Array(v) => {
            assert forall|j: int| 0 <= j < v.len() implies selector_error(#[trigger] v@[j], st, depth + 1)
                is None by {
                lemma_resolved_resolvable(v@[j], st, depth + 1);
            }
            lemma_no_failing_element(v@, st, depth, 0);
        },
        SparseSelector::Object(v) => {
            assert forall|j: int| 0 <= j < v.len() implies selector_error((#[trigger] v@[j]).1, st, depth + 1)
                is None by {
                lemma_resolved_resolvable(v@[j].1, st, depth + 1);
            }
            lemma_no_failing_entry(v@, st, depth, 0);
        },
        SparseSelector::Ref(r) => {
            let sr = r.val->Some_0;
            let f = st.file_spec(sr.utils.pfile_path@)->Some_0;
            let t = pointer_spec(f.val_spec(), sr.utils.pointer@)->Some_0;
            lemma_resolved_resolvable(*sr.val, st, depth + 1);
            lemma_rendered_resolvable(*sr.val, t, sr.utils.pfile_path@, st, depth + 1);
        },
        _ => {},
    }
}

/// A value read from a tree fails to resolve exactly as the tree does.
pub proof fn lemma_rendered_resolvable(
    s: SparseSelector,
    t: Tree,
    base: Seq<char>,
    st: SparseState,
    depth: int,
)
    requires
        renders(s, t),
        based_in(s, base),
    ensures
        selector_error(s, st, depth) == tree_error(t, base, st, depth),
    decreases s,
{
    match s {
        SparseSelector::Array(v) => {
            if let Tree::Array(w) = t {
                assert forall|j: int| 0 <= j < v.len() implies selector_error(
                    #[trigger] v@[j],
                    st,
                    depth + 1,
                ) == tree_error(w@[j], base, st, depth + 1) by {
                    lemma_rendered_resolvable(v@[j], w@[j], base, st, depth + 1);
                }
                lemma_rendered_elements(v@, w@, base, st, depth, 0);
            }
        },
        SparseSelector::Object(v) => {
            if let Tree::Object(w) = t {
                assert forall|j: int| 0 <= j < v.len() implies selector_error(
                    (#[trigger] v@[j]).1,
                    st,
                    depth + 1,
                ) == tree_error(w@[j].1, base, st, depth + 1) by {
                    lemma_rendered_resolvable(v@[j].1, w@[j].1, base, st, depth + 1);
                }
                lemma_rendered_entries(v@, w@, base, st, depth, 0);
            }
        },
        _ => {},
    }
}

pub proof fn lemma_same_shape_renders(a: SparseSelector, b: SparseSelector, t: Tree)
    requires
        same_shape(a, b),
        renders(a, t),
    ensures
        renders(b, t),
    decreases a,
{
    match a {
        SparseSelector::Array(v) => {
            if let SparseSelector::Array(w) = b {
                if let Tree::Array(u) = t {
                    assert forall|i: int| 0 <= i < w.len() implies renders(#[trigger] w@[i], u@[i]) by {
                        lemma_same_shape_renders(v@[i], w@[i], u@[i]);
                    }
                }
            }
        },
        SparseSelector::Object(v) => {
            if let SparseSelector::Object(w) = b {
                if let Tree::Object(u) = t {
                    assert forall|i: int| 0 <= i < w.len() implies (#[trigger] w@[i]).0@
                        == u@[i].0@ && renders(w@[i].1, u@[i].1) by {
                        assert(v@[i].0@ == w@[i].0@);
                        lemma_same_shape_renders(v@[i].1, w@[i].1, u@[i].1);
                    }
                }
            }
        },
        _ => {},
    }
}

/// Every resolved reference in `s` (also inside resolved values) whose descriptor names
/// document `path` and pointer `ptr` holds a value that renders `t`.
pub open spec fn refs_render_at(s: SparseSelector, path: Seq<char>, ptr: Seq<char>, t: Tree) -> bool
    decreases s,
{
    match s {
        SparseSelector::Array(v) => forall|i: int|
            0 <= i < v.len() ==> refs_render_at(#[trigger] v@[i], path, ptr, t),
        SparseSelector::Object(v) => forall|i: int|
            0 <= i < v.len() ==> refs_render_at((#[trigger] v@[i]).1, path, ptr, t),
        SparseSelector::Ref(r) => match r.val {
            Some(sr) => (sr.utils.pfile_path@ == path && sr.utils.pointer@ == ptr ==> renders(
                *sr.val,
                t,
            )) && refs_render_at(*sr.val, path, ptr, t),
            None => true,
        },
        _ => true,
    }
}

/// In a value resolved against a store, every reference to a place of a document holds
/// what the store has at that place now.
pub proof fn lemma_resolved_refs_render(
    s: SparseSelector,
    st: SparseState,
    depth: int,
    path: Seq<char>,
    ptr: Seq<char>,
    t: Tree,
)
    requires
        resolved(s, st, depth),
        st.file_spec(path) matches Some(f) && pointer_spec(f.val_spec(), ptr) == Some(t),
    ensures
        refs_render_at(s, path, ptr, t),
    decreases s,
{
    match s {
        SparseSelector::Array(v) => {
            assert forall|i: int| 0 <= i < v.len() implies refs_render_at(
                #[trigger] v@[i],
                path,
                ptr,
                t,
            ) by {
                lemma_resolved_refs_render(v@[i], st, depth + 1, path, ptr, t);
            }
        },
        SparseSelector::Object(v) => {
            assert forall|i: int| 0 <= i < v.len() implies refs_render_at(
                (#[trigger] v@[i]).1,
                path,
                ptr,
                t,
            ) by {
                lemma_resolved_refs_render(v@[i].1, st, depth + 1, path, ptr, t);
            }
        },
        SparseSelector::Ref(r) => {
            if let Some(sr) = r.val {
                lemma_resolved_refs_render(*sr.val, st, depth + 1, path, ptr, t);
            }
        },
        _ => {},
    }
}

/// A reference checked current against store `a` is reported outdated against any store
/// `b` in which its target document has a higher version, until it is resolved again.
pub proof fn lemma_version_bump_outdates(s: SparseSelector, a: SparseState, b: SparseState)
    requires
        check_version_spec(s, a) is Ok,
        s matches SparseSelector::Ref(r) && (r.val matches Some(sr) && (a.file_spec(
            sr.utils.pfile_path@,
        ) matches Some(f) && (b.file_spec(sr.utils.pfile_path@) matches Some(g)
            && g.version_spec() > f.version_spec()))),
    ensures
        check_version_spec(s, b) == Err::<(), SparseError>(SparseError::OutdatedPointer),
{
}

/// No reference on a cycle of references, of any length and across any files, resolves:
/// resolving one fails with `CyclicRef` once the depth bound is reached.
pub proof fn lemma_ref_cycle_unresolvable(
    cycle: Seq<(Seq<char>, Seq<char>)>,
    st: SparseState,
    i: int,
    depth: int,
)
    requires
        is_ref_cycle(cycle, st),
        0 <= i < cycle.len(),
    ensures
        point_error(cycle[i].0, cycle[i].1, st, depth) == Some(ResolveFailure::CyclicRef),
    decreases MAX_SPARSE_DEPTH - depth,
{
    if depth < MAX_SPARSE_DEPTH {
        let j = if i + 1 < cycle.len() {
            i + 1
        } else {
            0
        };
        assert(next_ref(cycle[i].0, cycle[i].1, st) == Some(cycle[j]));
        lemma_ref_cycle_unresolvable(cycle, st, j, depth + 1);
    }
}

/// `t` is what serializing `s` gives: the same data, each reference written back as
/// `{"$ref": ...}`.
pub open spec fn serializes(s: SparseSelector, t: Tree) -> bool
    decreases s,
{
    match s {
        SparseSelector::Null => t is Null,
        SparseSelector::Bool(b) => t == Tree::Bool(b),
        SparseSelector::Number(n) => match t {
            Tree::Number(m) => m@ == n@,
            _ => false,
        },
        SparseSelector::Str(x) => match t {
            Tree::Str(y) => y@ == x@,
            _ => false,
        },
        SparseSelector::Array(v) => match t {
            Tree::Array(w) => w.len() == v.len() && forall|i: int|
                0 <= i < v.len() ==> serializes(#[trigger] v@[i], w@[i]),
            _ => false,
        },
        SparseSelector::Object(v) => match t {
            Tree::Object(w) => w.len() == v.len() && forall|i: int|
                0 <= i < v.len() ==> (#[trigger] v@[i]).0@ == w@[i].0@ && serializes(
                    v@[i].1,
                    w@[i].1,
                ),
            _ => false,
        },
        SparseSelector::Ref(r) => match t {
            Tree::Object(w) => w.len() == 1 && w@[0].0@ == seq!['$', 'r', 'e', 'f'] && match w@[0].1 {
                Tree::Str(x) => x@ == r.raw_pointer@,
                _ => false,
            },
            _ => false,
        },
    }
}

pub proof fn lemma_same_shape_refl(s: SparseSelector)
    ensures
        same_shape(s, s),
    decreases s,
{
    match s {
        SparseSelector::Array(v) => {
            assert forall|i: int| 0 <= i < v.len() implies same_shape(#[trigger] v@[i], v@[i]) by {
                lemma_same_shape_refl(v@[i]);
            }
        },
        SparseSelector::Object(v) => {
            assert forall|i: int| 0 <= i < v.len() implies (#[trigger] v@[i]).0@ == v@[i].0@
                && same_shape(v@[i].1, v@[i].1) by {
                lemma_same_shape_refl(v@[i].1);
            }
        },
        _ => {},
    }
}

/// `t` holds no reference: no object of it has a string `$ref` entry.
pub open spec fn no_refs(t: Tree) -> bool
    decreases t,
{
    match t {
        Tree::Array(w) => forall|i: int| 0 <= i < w.len() ==> no_refs(#[trigger] w@[i]),
        Tree::Object(w) => ref_text(t) is None && forall|i: int|
            0 <= i < w.len() ==> no_refs((#[trigger] w@[i]).1),
        _ => true,
    }
}

/// `a` and `b` hold the same data.
pub open spec fn tree_equiv(a: Tree, b: Tree) -> bool
    decreases a,
{
    match a {
        Tree::Null => b is Null,
        Tree::Bool(x) => b == Tree::Bool(x),
        Tree::Number(n) => match b {
            Tree::Number(m) => m@ == n@,
            _ => false,
        },
        Tree::Str(x) => match b {
            Tree::Str(y) => y@ == x@,
            _ => false,
        },
        Tree::Array(v) => match b {
            Tree::Array(w) => w.len() == v.len() && forall|i: int|
                0 <= i < v.len() ==> tree_equiv(#[trigger] v@[i], w@[i]),
            _ => false,
        },
        Tree::Object(v) => match b {
            Tree::Object(w) => w.len() == v.len() && forall|i: int|
                0 <= i < v.len() ==> (#[trigger] v@[i]).0@ == w@[i].0@ && tree_equiv(
                    v@[i].1,
                    w@[i].1,
                ),
            _ => false,
        },
    }
}

/// Reading a document without references and writing it back gives the same data.
pub proof fn lemma_round_trip(t: Tree, s: SparseSelector, u: Tree)
    requires
        no_refs(t),
        renders(s, t),
        serializes(s, u),
    ensures
        tree_equiv(t, u),
    decreases s,
{
    match s {
        SparseSelector::Array(v) => {
            if let Tree::Array(w) = t {
                if let Tree::Array(x) = u {
                    assert forall|i: int| 0 <= i < w.len() implies tree_equiv(#[trigger] w@[i], x@[i]) by {
                        lemma_round_trip(w@[i], v@[i], x@[i]);
                    }
                }
            }
        },
        SparseSelector::Object(v) => {
            if let Tree::Object(w) = t {
                if let Tree::Object(x) = u {
                    assert forall|i: int| 0 <= i < w.len() implies (#[trigger] w@[i]).0@ == x@[i].0@
                        && tree_equiv(w@[i].1, x@[i].1) by {
                        assert(v@[i].0@ == w@[i].0@);
                        lemma_round_trip(w@[i].1, v@[i].1, x@[i].1);
                    }
                }
            }
        },
        _ => {},
    }
}

} // verus!
