//! Newtype'd indices and vectors indexed by them.
use vstd::prelude::*;
use vstd::std_specs::cmp::OrdSpec;
use vstd::std_specs::iter::IteratorSpec;

verus! {

/// Exclusive upper bound on the value an index can hold (`u32::MAX - 1`).
pub const INDEX_LIMIT: u32 = 4294967294u32;

/// An index type that wraps a `u32` below `INDEX_LIMIT`; used to index an
/// `IndexVec`.
pub trait U32Index: Copy + Sized {
    /// The number this index stands for.
    spec fn index_value(self) -> nat;

    /// Two indices with the same value are the same index.
    proof fn lemma_index_value_injective(self, other: Self)
        requires
            self.index_value() == other.index_value(),
        ensures
            self == other,
    ;

    fn as_usize(self) -> (r: usize)
        ensures
            r == self.index_value(),
            r < INDEX_LIMIT,
    ;

    fn from_usize(v: usize) -> (r: Self)
        requires
            v < INDEX_LIMIT,
        ensures
            r.index_value() == v,
    ;

    fn as_u32(self) -> (r: u32)
        ensures
            r == self.index_value(),
            r < INDEX_LIMIT,
    ;

    fn from_u32(v: u32) -> (r: Self)
        requires
            v < INDEX_LIMIT,
        ensures
            r.index_value() == v,
    ;
}

/// A vector indexable via values of type `I`.
pub struct IndexVec<I: U32Index, T> {
    vec: Vec<T>,
    _marker: core::marker::PhantomData<I>,
}

impl<I: U32Index, T> View for IndexVec<I, T> {
    type V = Seq<T>;

    closed spec fn view(&self) -> Seq<T> {
        self.vec@
    }
}

impl<I: U32Index, T> IndexVec<I, T> {
    pub fn new() -> (r: Self)
        ensures
            r@ == Seq::<T>::empty(),
    {
        IndexVec { vec: Vec::new(), _marker: core::marker::PhantomData }
    }

    pub fn with_capacity(cap: usize) -> (r: Self)
        ensures
            r@ == Seq::<T>::empty(),
    {
        IndexVec { vec: Vec::with_capacity(cap), _marker: core::marker::PhantomData }
    }

    /// A vector holding `elem` once for each element of `universe`.
    pub fn from_elem<S>(elem: T, universe: &IndexVec<I, S>) -> (r: Self) where T: Clone
        ensures
            r@.len() == universe@.len(),
            forall|i: int| 0 <= i < r@.len() ==> cloned(elem, #[trigger] r@[i]),
    {
        IndexVec { vec: vec![elem; universe.len()], _marker: core::marker::PhantomData }
    }

    /// A vector holding `elem` `n` times.
    pub fn from_elem_n(elem: T, n: usize) -> (r: Self) where T: Clone
        ensures
            r@.len() == n,
            forall|i: int| 0 <= i < r@.len() ==> cloned(elem, #[trigger] r@[i]),
    {
        IndexVec { vec: vec![elem; n], _marker: core::marker::PhantomData }
    }

    /// Wraps an existing vector; element `k` gets the index with value `k`.
    pub fn from_vec(vec: Vec<T>) -> (r: Self)
        ensures
            r@ == vec@,
    {
        IndexVec { vec, _marker: core::marker::PhantomData }
    }

    pub fn len(&self) -> (r: usize)
        ensures
            r == self@.len(),
    {
        self.vec.len()
    }

    pub fn is_empty(&self) -> (r: bool)
        ensures
            r == (self@.len() == 0),
    {
        self.vec.len() == 0
    }

    /// The elements, in index order, as an owning iterator.
    pub fn into_iter(self) -> (r: std::vec::IntoIter<T>)
        ensures
            r.remaining() == self@,
    {
        self.vec.into_iter()
    }

    /// Each element paired with its index, in index order.
    pub fn into_iter_enumerated(self) -> (r: Vec<(I, T)>)
        requires
            self@.len() <= INDEX_LIMIT,
        ensures
            r@.len() == self@.len(),
            forall|k: int|
                0 <= k < r@.len() ==> (#[trigger] r@[k]).0.index_value() == k && r@[k].1 == self@[k],
    {
        let ghost old_view = self@;
        let mut vec = self.vec;
        let mut rev: Vec<(I, T)> = Vec::new();
        let n = vec.len();
        while vec.len() > 0
            invariant
                n == old_view.len(),
                n <= INDEX_LIMIT,
                vec@ == old_view.subrange(0, vec@.len() as int),
                rev@.len() + vec@.len() == n,
                forall|j: int|
                    0 <= j < rev@.len() ==> (#[trigger] rev@[j]).0.index_value() == n - 1 - j
                        && rev@[j].1 == old_view[n - 1 - j],
            decreases vec@.len(),
        {
            let k = vec.len() - 1;
            let v = vec.pop().unwrap();
            rev.push((I::from_usize(k), v));
        }
        let mut out: Vec<(I, T)> = Vec::new();
        while rev.len() > 0
            invariant
                n == old_view.len(),
                rev@.len() + out@.len() == n,
                forall|j: int|
                    0 <= j < rev@.len() ==> (#[trigger] rev@[j]).0.index_value() == n - 1 - j
                        && rev@[j].1 == old_view[n - 1 - j],
                forall|k: int|
                    0 <= k < out@.len() ==> (#[trigger] out@[k]).0.index_value() == k
                        && out@[k].1 == old_view[k],
            decreases rev@.len(),
        {
            let p = rev.pop().unwrap();
            out.push(p);
        }
        out
    }

    /// The elements, in index order, as a borrowing iterator.
    pub fn iter(&self) -> (r: std::slice::Iter<'_, T>)
        ensures
            r.remaining() == self@.as_ref(),
    {
        self.vec.as_slice().iter()
    }

    /// The elements as a mutable slice, in index order.
    pub fn iter_mut(&mut self) -> (r: &mut [T])
        ensures
            r@ == old(self)@,
            final(self)@ == final(r)@,
    {
        self.vec.as_mut_slice()
    }

    /// Each element paired with its index, in index order.
    pub fn iter_enumerated(&self) -> (r: Vec<(I, &T)>)
        requires
            self@.len() <= INDEX_LIMIT,
        ensures
            r@.len() == self@.len(),
            forall|k: int|
                0 <= k < r@.len() ==> (#[trigger] r@[k]).0.index_value() == k && *r@[k].1 == self@[k],
    {
        let mut out: Vec<(I, &T)> = Vec::new();
        let n = self.vec.len();
        let mut k: usize = 0;
        while k < n
            invariant
                n == self@.len(),
                n <= INDEX_LIMIT,
                k <= n,
                out@.len() == k,
                forall|j: int|
                    0 <= j < k ==> (#[trigger] out@[j]).0.index_value() == j && *out@[j].1 == self@[j],
            decreases n - k,
        {
            out.push((I::from_usize(k), &self.vec[k]));
            k = k + 1;
        }
        out
    }

    /// Every valid index, in increasing order.
    pub fn indices(&self) -> (r: Vec<I>)
        requires
            self@.len() <= INDEX_LIMIT,
        ensures
            r@.len() == self@.len(),
            forall|k: int| 0 <= k < r@.len() ==> (#[trigger] r@[k]).index_value() == k,
    {
        let mut out: Vec<I> = Vec::new();
        let n = self.vec.len();
        let mut k: usize = 0;
        while k < n
            invariant
                n == self@.len(),
                n <= INDEX_LIMIT,
                k <= n,
                out@.len() == k,
                forall|j: int| 0 <= j < k ==> (#[trigger] out@[j]).index_value() == j,
            decreases n - k,
        {
            out.push(I::from_usize(k));
            k = k + 1;
        }
        out
    }

    /// The index of the last element, if any.
    pub fn last_idx(&self) -> (r: Option<I>)
        requires
            self@.len() <= INDEX_LIMIT,
        ensures
            self@.len() == 0 ==> r is None,
            self@.len() > 0 ==> (r matches Some(i) && i.index_value() == self@.len() - 1),
    {
        if self.is_empty() {
            None
        } else {
            Some(I::from_usize(self.len() - 1))
        }
    }

    /// The index the next pushed element will get.
    pub fn next_idx(&self) -> (r: I)
        requires
            self@.len() < INDEX_LIMIT,
        ensures
            r.index_value() == self@.len(),
    {
        I::from_usize(self.len())
    }

    pub fn shrink_to_fit(&mut self)
        ensures
            final(self)@ == old(self)@,
    {
        vec_shrink_to_fit(&mut self.vec)
    }

    /// Exchanges the elements at `l` and `r`.
    pub fn swap(&mut self, l: I, r: I)
        requires
            l.index_value() < old(self)@.len(),
            r.index_value() < old(self)@.len(),
        ensures
            final(self)@ == old(self)@.update(l.index_value() as int, old(self)@[r.index_value() as int]).update(
                r.index_value() as int,
                old(self)@[l.index_value() as int],
            ),
    {
        let a = l.as_usize();
        let b = r.as_usize();
        slice_swap(self.vec.as_mut_slice(), a, b)
    }

    /// Keeps the first `s` elements (all of them if there are fewer).
    pub fn truncate(&mut self, s: usize)
        ensures
            s <= old(self)@.len() ==> final(self)@ == old(self)@.subrange(0, s as int),
            s > old(self)@.len() ==> final(self)@ == old(self)@,
    {
        self.vec.truncate(s)
    }

    pub fn get(&self, i: I) -> (r: Option<&T>)
        ensures
            i.index_value() < self@.len() ==> r == Some(&self@[i.index_value() as int]),
            i.index_value() >= self@.len() ==> r is None,
    {
        let k = i.as_usize();
        if k < self.vec.len() {
            Some(&self.vec[k])
        } else {
            None
        }
    }

    pub fn get_mut(&mut self, i: I) -> (r: Option<&mut T>)
        ensures
            i.index_value() < old(self)@.len() ==> (r matches Some(x) && *x == old(self)@[i.index_value() as int]
                && final(self)@ == old(self)@.update(i.index_value() as int, *final(x))),
            i.index_value() >= old(self)@.len() ==> r is None && final(self)@ == old(self)@,
    {
        let k = i.as_usize();
        if k < self.vec.len() {
            Some(&mut self.vec[k])
        } else {
            None
        }
    }

    /// The element at `i`; `i` must be in bounds.
    pub fn index(&self, i: I) -> (r: &T)
        requires
            i.index_value() < self@.len(),
        ensures
            *r == self@[i.index_value() as int],
    {
        &self.vec[i.as_usize()]
    }

    /// The element at `i`, mutably; `i` must be in bounds.
    pub fn index_mut(&mut self, i: I) -> (r: &mut T)
        requires
            i.index_value() < old(self)@.len(),
        ensures
            *r == old(self)@[i.index_value() as int],
            final(self)@ == old(self)@.update(i.index_value() as int, *final(r)),
    {
        let k = i.as_usize();
        &mut self.vec[k]
    }

    pub fn last(&self) -> (r: Option<&T>)
        ensures
            self@.len() == 0 ==> r is None,
            self@.len() > 0 ==> r == Some(&self@.last()),
    {
        self.vec.as_slice().last()
    }

    pub fn last_mut(&mut self) -> (r: Option<&mut T>)
        ensures
            old(self)@.len() == 0 ==> r is None && final(self)@ == old(self)@,
            old(self)@.len() > 0 ==> (r matches Some(x) && *x == old(self)@.last()
                && final(self)@ == old(self)@.update(old(self)@.len() - 1, *final(x))),
    {
        self.vec.as_mut_slice().last_mut()
    }

    pub fn reserve(&mut self, s: usize)
        ensures
            final(self)@ == old(self)@,
    {
        self.vec.reserve(s);
    }

    /// Grows with clones of `v` or shrinks, so that the length becomes `s`.
    pub fn resize(&mut self, s: usize, v: T) where T: Clone
        ensures
            final(self)@.len() == s,
            s <= old(self)@.len() ==> final(self)@ == old(self)@.subrange(0, s as int),
            s > old(self)@.len() ==> final(self)@.subrange(0, old(self)@.len() as int) == old(self)@
                && forall|k: int| old(self)@.len() <= k < s ==> cloned(v, #[trigger] final(self)@[k]),
    {
        self.vec.resize(s, v);
    }

    /// Appends `d`, returning the index it was stored at.
    pub fn push(&mut self, d: T) -> (r: I)
        requires
            old(self)@.len() < INDEX_LIMIT,
        ensures
            r.index_value() == old(self)@.len(),
            final(self)@ == old(self)@.push(d),
    {
        let idx = self.next_idx();
        self.vec.push(d);
        idx
    }

    /// Appends the element that `f` builds from the index it will be stored at.
    pub fn push_with_idx<F>(&mut self, f: F) -> (r: I) where F: FnOnce(I) -> T
        requires
            old(self)@.len() < INDEX_LIMIT,
            forall|i: I| i.index_value() == old(self)@.len() ==> call_requires(f, (i,)),
        ensures
            r.index_value() == old(self)@.len(),
            final(self)@.len() == old(self)@.len() + 1,
            final(self)@.subrange(0, old(self)@.len() as int) == old(self)@,
            call_ensures(f, (r,), final(self)@.last()),
    {
        let idx = self.next_idx();
        let d = f(idx);
        self.vec.push(d);
        idx
    }

    /// Appends every element of `items`, in order.
    pub fn extend(&mut self, items: Vec<T>)
        ensures
            final(self)@ == old(self)@ + items@,
    {
        let mut items = items;
        self.vec.append(&mut items);
    }
}

impl<I: U32Index, T> Default for IndexVec<I, T> {
    fn default() -> (r: Self)
        ensures
            r@ == Seq::<T>::empty(),
    {
        IndexVec::new()
    }
}

impl<I: U32Index, T> From<Vec<T>> for IndexVec<I, T> {
    fn from(vec: Vec<T>) -> (r: Self)
        ensures
            r@ == vec@,
    {
        IndexVec { vec, _marker: core::marker::PhantomData }
    }
}

impl<I: U32Index, T> vstd::std_specs::convert::FromSpecImpl<Vec<T>> for IndexVec<I, T> {
    open spec fn obeys_from_spec() -> bool {
        true
    }

    closed spec fn from_spec(vec: Vec<T>) -> Self {
        IndexVec { vec, _marker: core::marker::PhantomData }
    }
}

impl<I: U32Index, T: Ord> IndexVec<I, T> {
    /// Searches a sorted vector for `v`: `Ok` with an index holding an equal
    /// element, or `Err` with the index at which `v` could be inserted while
    /// keeping the order. Where the elements' order leaves the search's
    /// result unspecified and it lands out of bounds, the result is `Err` of
    /// the length.
    pub fn binary_search(&self, v: &T) -> (r: Result<I, I>)
        requires
            self@.len() < INDEX_LIMIT,
        ensures
            r matches Ok(i) ==> i.index_value() < self@.len(),
            r matches Err(i) ==> i.index_value() <= self@.len(),
            search_applies(self@) ==> {
                &&& r matches Ok(i) ==> search_found(self@, i.index_value() as int, v)
                &&& r matches Err(i) ==> search_gap(self@, i.index_value() as int, v)
            },
    {
        let n = self.vec.len();
        match slice_binary_search(self.vec.as_slice(), v) {
            Ok(k) => if k < n {
                Ok(I::from_usize(k))
            } else {
                // Only where the order is not one the search can use.
                Err(I::from_usize(n))
            },
            Err(k) => if k <= n {
                Err(I::from_usize(k))
            } else {
                Err(I::from_usize(n))
            },
        }
    }
}

/// The order that `Ord` gives `T` is specified and is a total order (it
/// obeys the laws of comparison), and `s` is non-decreasing under it.
pub open spec fn search_applies<T: Ord>(s: Seq<T>) -> bool {
    &&& T::obeys_cmp_spec()
    &&& vstd::laws_cmp::obeys_cmp::<T>()
    &&& forall|i: int, j: int|
        0 <= i < j < s.len() ==> vstd::std_specs::cmp::OrdSpec::cmp_spec(&#[trigger] s[i], &#[trigger] s[j]) != core::cmp::Ordering::Greater
}

/// Element `i` of `s` compares equal to `v`.
pub open spec fn search_found<T: Ord>(s: Seq<T>, i: int, v: &T) -> bool {
    vstd::std_specs::cmp::OrdSpec::cmp_spec(&s[i], v) == core::cmp::Ordering::Equal
}

/// Every element of `s` before `i` is less than `v`, every one from `i` on
/// greater.
pub open spec fn search_gap<T: Ord>(s: Seq<T>, i: int, v: &T) -> bool {
    &&& forall|j: int| 0 <= j < i ==> vstd::std_specs::cmp::OrdSpec::cmp_spec(&#[trigger] s[j], v) == core::cmp::Ordering::Less
    &&& forall|j: int| i <= j < s.len() ==> vstd::std_specs::cmp::OrdSpec::cmp_spec(&#[trigger] s[j], v) == core::cmp::Ordering::Greater
}

/// Calls `Vec::shrink_to_fit`, which only changes the capacity: the
/// contents stay as they were.
#[verifier::external_body]
fn vec_shrink_to_fit<T>(v: &mut Vec<T>)
    ensures
        final(v)@ == old(v)@,
{
    v.shrink_to_fit()
}

/// Calls `<[T]>::swap`, which exchanges the two elements (it panics out of
/// bounds, hence the `requires`).
#[verifier::external_body]
fn slice_swap<T>(s: &mut [T], a: usize, b: usize)
    requires
        a < old(s)@.len(),
        b < old(s)@.len(),
    ensures
        final(s)@ == old(s)@.update(a as int, old(s)@[b as int]).update(b as int, old(s)@[a as int]),
{
    s.swap(a, b)
}

/// Calls `<[T]>::binary_search`. When the slice is sorted under a specified
/// total order, `Ok` holds the index of an equal element and `Err` the insertion
/// point that keeps the order (both in bounds). Which of several equal
/// elements `Ok` names is left open, as the documentation leaves it open;
/// for an unsorted slice, or an order that is not total, the documentation
/// leaves the result unspecified, and nothing is stated of it then.
#[verifier::external_body]
fn slice_binary_search<T: Ord>(s: &[T], v: &T) -> (r: Result<usize, usize>)
    ensures
        search_applies(s@) ==> {
            &&& r matches Ok(i) ==> i < s@.len() && search_found(s@, i as int, v)
            &&& r matches Err(i) ==> i <= s@.len() && search_gap(s@, i as int, v)
        },
{
    s.binary_search(v)
}

} // verus!
