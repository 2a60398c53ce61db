//! Collections shared by the rest of the toolchain: index vectors and a
//! sequence that can be narrowed to a sub-range and extended.
use vstd::prelude::*;
use vstd::std_specs::cmp::PartialEqSpec;

pub use crate::indices::{IndexVec, U32Index};

verus! {

/// Hash map that keeps insertion order, hashed with `FxHasher`.
pub type FxIndexMap<K, V> = indexmap::IndexMap<K, V, core::hash::BuildHasherDefault<rustc_hash::FxHasher>>;

#[verifier::external_type_specification]
#[verifier::external_body]
#[verifier::reject_recursive_types(K)]
#[verifier::reject_recursive_types(V)]
#[verifier::reject_recursive_types(S)]
pub struct ExIndexMap<K, V, S>(indexmap::IndexMap<K, V, S>);

#[verifier::external_type_specification]
#[verifier::external_body]
pub struct ExFxHasher(rustc_hash::FxHasher);

#[verifier::external_type_specification]
#[verifier::external_body]
#[verifier::reject_recursive_types(H)]
pub struct ExBuildHasherDefault<H>(core::hash::BuildHasherDefault<H>);


/// A map from the index of a name's interned text to the index of the
/// variable that the name stands for in the current scope.
pub type ScopeMap = FxIndexMap<u32, u32>;

/// What a scope map holds, key by key.
pub uninterp spec fn scope_contents(m: ScopeMap) -> Map<u32, u32>;

/// Calls `IndexMap::default`: a new map holds nothing.
#[verifier::external_body]
pub(crate) fn scope_new() -> (r: ScopeMap)
    ensures
        scope_contents(r).is_empty(),
{
    indexmap::IndexMap::default()
}

/// Calls `IndexMap::get`: the value stored for `k`, if any.
#[verifier::external_body]
pub(crate) fn scope_get(m: &ScopeMap, k: u32) -> (r: Option<u32>)
    ensures
        scope_contents(*m).contains_key(k) ==> r == Some(scope_contents(*m)[k]),
        !scope_contents(*m).contains_key(k) ==> r is None,
{
    m.get(&k).copied()
}

/// Calls `IndexMap::insert`: afterwards `k` maps to `v` and every other key
/// to what it mapped to before; the value `k` mapped to before, if any, is
/// returned.
#[verifier::external_body]
pub(crate) fn scope_insert(m: &mut ScopeMap, k: u32, v: u32) -> (r: Option<u32>)
    ensures
        scope_contents(*final(m)) == scope_contents(*old(m)).insert(k, v),
        scope_contents(*old(m)).contains_key(k) ==> r == Some(scope_contents(*old(m))[k]),
        !scope_contents(*old(m)).contains_key(k) ==> r is None,
{
    m.insert(k, v)
}

/// Calls `IndexMap::clone`: a map with the same entries.
#[verifier::external_body]
pub(crate) fn scope_clone(m: &ScopeMap) -> (r: ScopeMap)
    ensures
        scope_contents(r) == scope_contents(*m),
{
    m.clone()
}

/// A sequence of values that can be narrowed (`select`), split off
/// (`extract`) and grown (`extend`).
pub struct LarkSeq<T> {
    vec: Vec<T>,
}

impl<T> View for LarkSeq<T> {
    type V = Seq<T>;

    closed spec fn view(&self) -> Seq<T> {
        self.vec@
    }
}

impl<T> LarkSeq<T> {
    /// The empty sequence.
    pub fn new() -> (r: Self)
        ensures
            r@ == Seq::<T>::empty(),
    {
        LarkSeq { vec: Vec::new() }
    }

    /// The sequence holding the elements of `vec`, in order.
    pub fn from_vec(vec: Vec<T>) -> (r: Self)
        ensures
            r@ == vec@,
    {
        LarkSeq { vec }
    }

    pub fn len(&self) -> (r: usize)
        ensures
            r == self@.len(),
    {
        self.vec.len()
    }

    pub fn is_empty(&self) -> (r: bool)
        ensures
            r == (self@.len() == 0),
    {
        self.vec.len() == 0
    }

    /// The elements, in order.
    pub fn as_slice(&self) -> (r: &[T])
        ensures
            r@ == self@,
    {
        self.vec.as_slice()
    }

    /// Narrows the sequence to the elements at positions `range`
    /// (relative to the current contents).
    pub fn select(&mut self, range: core::ops::Range<usize>)
        requires
            range.start <= range.end <= old(self)@.len(),
        ensures
            final(self)@ == old(self)@.subrange(range.start as int, range.end as int),
    {
        self.vec.truncate(range.end);
        let tail = self.vec.split_off(range.start);
        self.vec = tail;
    }

    /// Appends every element of `items`, in order.
    pub fn extend(&mut self, items: Vec<T>)
        ensures
            final(self)@ == old(self)@ + items@,
    {
        let mut items = items;
        self.vec.append(&mut items);
    }
}

impl<T: Clone> LarkSeq<T> {
    /// A new sequence with (clones of) the elements at positions `range`;
    /// `self` is left as it was.
    pub fn extract(&self, range: core::ops::Range<usize>) -> (r: Self)
        requires
            range.start <= range.end <= self@.len(),
        ensures
            r@.len() == range.end - range.start,
            forall|k: int| 0 <= k < r@.len() ==> cloned(self@[range.start + k], #[trigger] r@[k]),
    {
        let mut out: Vec<T> = Vec::new();
        let mut k = range.start;
        while k < range.end
            invariant
                range.start <= k <= range.end <= self@.len(),
                out@.len() == k - range.start,
                forall|j: int| 0 <= j < out@.len() ==> cloned(self@[range.start + j], #[trigger] out@[j]),
            decreases range.end - k,
        {
            let v = self.vec[k].clone();
            out.push(v);
            k = k + 1;
        }
        LarkSeq { vec: out }
    }
}

impl<T: Clone> Clone for LarkSeq<T> {
    fn clone(&self) -> (r: Self)
        ensures
            r@.len() == self@.len(),
            forall|k: int| 0 <= k < r@.len() ==> cloned(self@[k], #[trigger] r@[k]),
    {
        let n = self.vec.len();
        self.extract(0..n)
    }
}

impl<T> Default for LarkSeq<T> {
    fn default() -> (r: Self)
        ensures
            r@ == Seq::<T>::empty(),
    {
        LarkSeq::new()
    }
}

impl<T> core::ops::Deref for LarkSeq<T> {
    type Target = [T];

    fn deref(&self) -> (r: &[T])
        ensures
            r@ == self@,
    {
        self.vec.as_slice()
    }
}

impl<T: PartialEq> PartialEq for LarkSeq<T> {
    fn eq(&self, other: &Self) -> (r: bool) {
        let n = self.vec.len();
        if n != other.vec.len() {
            return false;
        }
        let mut k: usize = 0;
        while k < n
            invariant
                n == self@.len() == other@.len(),
                k <= n,
                T::obeys_eq_spec() ==> forall|j: int| 0 <= j < k ==> (#[trigger] self@[j]).eq_spec(&other@[j]),
            decreases n - k,
        {
            if !(self.vec[k] == other.vec[k]) {
                return false;
            }
            k = k + 1;
        }
        true
    }
}

impl<T: PartialEq> vstd::std_specs::cmp::PartialEqSpecImpl for LarkSeq<T> {
    open spec fn obeys_eq_spec() -> bool {
        T::obeys_eq_spec()
    }

    open spec fn eq_spec(&self, other: &Self) -> bool {
        seq_elements_eq(self@, other@)
    }
}

/// `a` and `b` have the same length and pairwise equal elements under
/// the elements' `==`.
pub open spec fn seq_elements_eq<T: PartialEq>(a: Seq<T>, b: Seq<T>) -> bool {
    &&& a.len() == b.len()
    &&& forall|j: int| 0 <= j < a.len() ==> (#[trigger] a[j]).eq_spec(&b[j])
}

} // verus!
