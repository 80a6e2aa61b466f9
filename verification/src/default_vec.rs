//! A growable array in which every index that was never written reads as a
//! default value.

use core::marker::PhantomData;
use vstd::prelude::*;
use vstd::std_specs::cmp::PartialEqSpec;
use vstd::std_specs::iter::IteratorSpec;

verus! {

/// `From<X> for X`, the conversion of a value to its own type: it hands its
/// argument back unchanged. This is what lets a plain `usize` serve as a key.
pub assume_specification<X>[ <X as core::convert::From<X>>::from ](x: X) -> (r: X)
    ensures
        r == x,
;

/// `Vec::capacity`: how many elements the allocation behind `v` has room for.
/// The number is the allocator's choice, so nothing is claimed of it.
#[verifier::external_body]
fn allocated<T>(v: &Vec<T>) -> usize {
    v.capacity()
}

/// `v` is a value that `T::default()` may return.
pub open spec fn is_default<T: Default>(v: T) -> bool {
    call_ensures(T::default, (), v)
}

/// `T::default()` always returns the same value.
pub open spec fn default_is_unique<T: Default>() -> bool {
    forall|a: T, b: T| is_default(a) && is_default(b) ==> a == b
}

/// A clone of a `T` is the value it was made from.
pub open spec fn clone_is_exact<T: Clone>() -> bool {
    forall|a: T, b: T| cloned(a, b) ==> a == b
}

/// `idx` is an index that `key` may convert to.
pub open spec fn index_of<I: Into<usize>>(key: I, idx: usize) -> bool {
    call_ensures(I::into, (key,), idx)
}

/// `long` is `short` followed by default values only.
pub open spec fn pads<T: Default>(short: Seq<T>, long: Seq<T>) -> bool {
    &&& short.len() <= long.len()
    &&& forall|j: int| 0 <= j < short.len() ==> long[j] == short[j]
    &&& forall|j: int| short.len() <= j < long.len() ==> is_default(long[j])
}

/// `long` holds a clone of each element of `short`, followed by default
/// values only.
pub open spec fn is_padded_copy<T: Clone + Default>(short: Seq<T>, long: Seq<T>) -> bool {
    &&& short.len() <= long.len()
    &&& forall|j: int| 0 <= j < short.len() ==> cloned(short[j], long[j])
    &&& forall|j: int| short.len() <= j < long.len() ==> is_default(long[j])
}

/// Reading index `i` of an array with the allocated slots `slots` may give
/// `v`: inside the allocation the stored value, outside of it a default value.
pub open spec fn reads<T: Default>(slots: Seq<T>, i: int, v: T) -> bool {
    if 0 <= i < slots.len() {
        v == slots[i]
    } else {
        is_default(v)
    }
}

/// What `==` compares of two arrays, `long` being the one with more slots:
/// `short` slot by slot against the start of `long`, and each further slot of
/// `long` against a default value.
pub open spec fn slots_equal<T: PartialEq + Default>(short: Seq<T>, long: Seq<T>) -> bool {
    &&& forall|j: int| 0 <= j < short.len() && j < long.len() ==> short[j].eq_spec(&long[j])
    &&& forall|j: int, d: T|
        short.len() <= j < long.len() && is_default(d) ==> #[trigger] long[j].eq_spec(&d)
}

/// What `==` means for two arrays with the allocated slots `a` and `b`.
pub open spec fn arrays_equal<T: PartialEq + Default>(a: Seq<T>, b: Seq<T>) -> bool {
    if a.len() < b.len() {
        slots_equal(a, b)
    } else {
        slots_equal(b, a)
    }
}

/// A mapping from indexes to values in which every index starts out as
/// `Default::default()`.
///
/// It keeps no length beside its allocation: the view is the sequence of
/// allocated slots, and the length of the view is the capacity. The allocation
/// grows when an index outside of it is written and never shrinks.
#[derive(Debug)]
pub struct DefaultVec<T, I = usize>(Vec<T>, PhantomData<I>);

impl<T, I> View for DefaultVec<T, I> {
    type V = Seq<T>;

    closed spec fn view(&self) -> Seq<T> {
        self.0@
    }
}

impl<T, I> Default for DefaultVec<T, I> {
    /// An array without any allocated slot.
    fn default() -> (r: Self)
        ensures
            r@ == Seq::<T>::empty(),
    {
        DefaultVec(Vec::new(), PhantomData)
    }
}

impl<T, I> DefaultVec<T, I> {
    /// An array whose allocated slots are the elements of `slots`.
    pub fn from_vec(slots: Vec<T>) -> (r: Self)
        ensures
            r@ == slots@,
    {
        DefaultVec(slots, PhantomData)
    }

    /// Gives up the array for its allocated slots.
    pub fn into_vec(self) -> (slots: Vec<T>)
        ensures
            slots@ == self@,
    {
        self.0
    }
}

impl<T: PartialEq + Default, I> PartialEq for DefaultVec<T, I> {
    /// Compares what the two arrays map each index to, whatever their
    /// capacities are.
    fn eq(&self, other: &Self) -> (r: bool) {
        let (long, short) = if self.0.len() < other.0.len() {
            (&other.0, &self.0)
        } else {
            (&self.0, &other.0)
        };
        let n: usize = short.len();
        let m: usize = long.len();
        let mut k: usize = 0;
        while k < n
            invariant
                k <= n == short@.len() <= m == long@.len(),
                arrays_equal(self@, other@) == slots_equal(short@, long@),
                T::obeys_eq_spec() ==> forall|j: int| 0 <= j < k ==> short@[j].eq_spec(&long@[j]),
            decreases n - k,
        {
            if !(short[k] == long[k]) {
                return false;
            }
            k = k + 1;
        }
        while k < m
            invariant
                n <= k <= m == long@.len(),
                n == short@.len(),
                arrays_equal(self@, other@) == slots_equal(short@, long@),
                T::obeys_eq_spec() ==> forall|j: int| 0 <= j < n ==> short@[j].eq_spec(&long@[j]),
                T::obeys_eq_spec() && default_is_unique::<T>() ==> forall|j: int, d: T|
                    n <= j < k && is_default(d) ==> #[trigger] long@[j].eq_spec(&d),
            decreases m - k,
        {
            let d = T::default();
            if !(long[k] == d) {
                return false;
            }
            assert(T::obeys_eq_spec() && default_is_unique::<T>() ==> forall|e: T|
                is_default(e) ==> #[trigger] long@[k as int].eq_spec(&e)) by {
                assert(is_default(d));
            }
            k = k + 1;
        }
        true
    }
}

impl<T: PartialEq + Default, I> vstd::std_specs::cmp::PartialEqSpecImpl for DefaultVec<T, I> {
    open spec fn obeys_eq_spec() -> bool {
        T::obeys_eq_spec() && default_is_unique::<T>()
    }

    open spec fn eq_spec(&self, other: &Self) -> bool {
        arrays_equal(self@, other@)
    }
}

impl<T: Eq + Default, I> Eq for DefaultVec<T, I> {

}

impl<T: Clone + Default, I: Into<usize>> Clone for DefaultVec<T, I> {
    /// A copy with the same capacity, each slot a clone of the one it stands
    /// for.
    fn clone(&self) -> (r: Self)
        ensures
            r@.len() == self@.len(),
            forall|j: int| 0 <= j < self@.len() ==> cloned(self@[j], #[trigger] r@[j]),
    {
        DefaultVec(self.0.clone(), PhantomData)
    }

    /// The same as the method [`DefaultVec::clone_from`], for callers that
    /// go through the trait.
    fn clone_from(&mut self, source: &Self)
        ensures
            is_padded_copy(source@, final(self)@),
            old(self)@.len() >= source@.len() ==> final(self)@.len() == old(self)@.len(),
            old(self)@.len() < source@.len() < usize::MAX ==> final(self)@.len() > source@.len(),
    {
        DefaultVec::clone_from(self, source)
    }
}

impl<T: Clone + Default, I: Into<usize>> DefaultVec<T, I> {
    /// Makes `self` a copy of `source` in place, keeping the allocation where
    /// it has room enough: it grows first where `source` has more slots, then
    /// clones the slots of `source` over its own and resets the rest.
    ///
    /// Where it grows, it asks for one slot more than `source` has, as long
    /// as that many slots can be counted.
    pub fn clone_from(&mut self, source: &Self)
        ensures
            is_padded_copy(source@, final(self)@),
            old(self)@.len() >= source@.len() ==> final(self)@.len() == old(self)@.len(),
            old(self)@.len() < source@.len() < usize::MAX ==> final(self)@.len() > source@.len(),
    {
        let wanted: usize = source.capacity();
        if wanted > self.capacity() {
            if wanted < usize::MAX {
                self.reserve(wanted);
            } else {
                self.reserve(wanted - 1);
            }
        }
        let n: usize = source.0.len();
        let m: usize = self.0.len();
        let mut k: usize = 0;
        while k < n
            invariant
                k <= n == source@.len() <= m == self.0@.len(),
                forall|j: int| 0 <= j < k ==> cloned(source@[j], self.0@[j]),
            decreases n - k,
        {
            self.0[k] = source.0[k].clone();
            k = k + 1;
        }
        while k < m
            invariant
                n <= k <= m == self.0@.len(),
                n == source@.len(),
                forall|j: int| 0 <= j < n ==> cloned(source@[j], self.0@[j]),
                forall|j: int| n <= j < k ==> is_default(self.0@[j]),
            decreases m - k,
        {
            self.0[k] = T::default();
            k = k + 1;
        }
    }
}

impl<T: Default, I: Into<usize>> DefaultVec<T, I> {
    /// Grows the allocation so that it holds index `i`, filling the new slots
    /// with default values. How far it grows beyond `i` is the allocator's
    /// choice. This is the rare path of an access, kept out of line.
    #[inline(never)]
    pub(crate) fn reserve(&mut self, i: usize)
        requires
            old(self)@.len() <= i < usize::MAX,
        ensures
            pads(old(self)@, final(self)@),
            i < final(self)@.len(),
    {
        let need: usize = i + 1;
        self.0.reserve(need - self.0.len());
        let room: usize = allocated(&self.0);
        let target: usize = if room < need {
            need
        } else {
            room
        };
        while self.0.len() < target
            invariant
                self.0@.len() <= target,
                i < target,
                pads(old(self)@, self.0@),
            decreases target - self.0@.len(),
        {
            self.0.push(T::default());
        }
    }

    /// Returns mutable access to the element at `i`.
    ///
    /// Where `i` lies outside the allocation, the allocation is first padded
    /// with default values until it holds `i`. What is written through the
    /// returned reference is what the slot holds afterwards.
    pub fn get_mut(&mut self, i: I) -> (slot: &mut T)
        requires
            forall|idx: usize| index_of(i, idx) ==> idx < usize::MAX,
        ensures
            exists|idx: usize, grown: Seq<T>|
                #![trigger index_of(i, idx), pads(old(self)@, grown)]
                {
                    &&& index_of(i, idx)
                    &&& pads(old(self)@, grown)
                    &&& idx < old(self)@.len() ==> grown == old(self)@
                    &&& idx < grown.len()
                    &&& *slot == grown[idx as int]
                    &&& final(self)@ == grown.update(idx as int, *final(slot))
                },
    {
        let idx: usize = i.into();
        assert(index_of(i, idx));
        if idx >= self.0.len() {
            self.reserve(idx);
        }
        let ghost grown = self.0@;
        assert(pads(old(self)@, grown));
        assert(idx < old(self)@.len() ==> grown =~= old(self)@);
        &mut self.0[idx]
    }

    /// Returns a copy of the element at `i`: the stored value inside the
    /// allocation, a default value outside of it. It never grows the
    /// allocation.
    pub fn get(&self, i: I) -> (r: T) where T: Copy
        ensures
            exists|idx: usize| index_of(i, idx) && reads(self@, idx as int, r),
    {
        let idx: usize = i.into();
        assert(index_of(i, idx));
        if idx < self.0.len() {
            self.0[idx]
        } else {
            T::default()
        }
    }

    /// Resets all elements to a default value. The capacity stays as it is,
    /// so every index reads as a default value afterwards.
    pub fn clear(&mut self)
        ensures
            final(self)@.len() == old(self)@.len(),
            pads(Seq::<T>::empty(), final(self)@),
            forall|i: int, v: T| reads(final(self)@, i, v) ==> is_default(v),
    {
        let n: usize = self.0.len();
        let mut k: usize = 0;
        while k < n
            invariant
                k <= n == self.0@.len(),
                forall|j: int| 0 <= j < k ==> is_default(self.0@[j]),
            decreases n - k,
        {
            self.0[k] = T::default();
            k = k + 1;
        }
    }

    /// The number of allocated slots.
    pub fn capacity(&self) -> (n: usize)
        ensures
            n == self@.len(),
    {
        self.0.len()
    }

    /// Returns an iterator over the allocated slots in index order. It yields
    /// `capacity()` elements, those that still hold a default value too.
    pub fn iter(&self) -> (it: core::slice::Iter<'_, T>)
        ensures
            it.remaining() == self@.as_ref(),
            it.remaining().len() == self@.len(),
            forall|i: int| 0 <= i < self@.len() ==> *it.remaining()[i] == self@[i],
    {
        self.0.iter()
    }

    /// Returns the allocated slots in index order for writing, `capacity()`
    /// of them. A `for` loop over the result visits each slot by mutable
    /// reference.
    pub fn iter_mut(&mut self) -> (slots: &mut [T])
        ensures
            slots@ == old(self)@,
            final(self)@ == final(slots)@,
    {
        self.0.as_mut_slice()
    }
}

/// A type with one canonical default instance that can be borrowed for
/// `'static`, so that reading an index outside the allocation of a
/// [`DefaultVec`] needs no copy.
pub trait ConstDefault: Default + 'static {
    /// Constant version of the default value.
    const DEFAULT: &'static Self;
}

/// The canonical default instance of `T` is what `T::default()` returns.
pub open spec fn const_is_default<T: ConstDefault>() -> bool {
    forall|v: T| is_default(v) ==> v == *T::DEFAULT
}

impl<T: ConstDefault, I: Into<usize>> core::ops::Index<I> for DefaultVec<T, I> {
    type Output = T;

    /// Borrows the element at `index`: the stored one inside the allocation,
    /// the canonical default instance outside of it.
    fn index(&self, index: I) -> (r: &T)
        ensures
            exists|idx: usize|
                index_of(index, idx) && *r == if idx < self@.len() {
                    self@[idx as int]
                } else {
                    *T::DEFAULT
                },
    {
        let idx: usize = index.into();
        assert(index_of(index, idx));
        if idx < self.0.len() {
            &self.0[idx]
        } else {
            T::DEFAULT
        }
    }
}

impl<T: ConstDefault, I: Into<usize>> core::ops::IndexMut<I> for DefaultVec<T, I> {
    /// Borrows the element at `index` for writing, as `get_mut` does.
    fn index_mut(&mut self, index: I) -> (slot: &mut T)
        requires
            forall|idx: usize| index_of(index, idx) ==> idx < usize::MAX,
        ensures
            exists|idx: usize, grown: Seq<T>|
                #![trigger index_of(index, idx), pads(old(self)@, grown)]
                {
                    &&& index_of(index, idx)
                    &&& pads(old(self)@, grown)
                    &&& idx < old(self)@.len() ==> grown == old(self)@
                    &&& idx < grown.len()
                    &&& *slot == grown[idx as int]
                    &&& final(self)@ == grown.update(idx as int, *final(slot))
                },
    {
        self.get_mut(index)
    }
}

impl<T: ConstDefault, I: Into<usize>> vstd::std_specs::core::IndexSpecImpl<I> for DefaultVec<T, I> {
    open spec fn index_req(&self, index: &I) -> bool {
        true
    }
}

/// Where the default value of `T` is unique, an index reads as one value
/// only.
pub proof fn lemma_reads_one_value<T: Default>(slots: Seq<T>, i: int, v: T, w: T)
    requires
        default_is_unique::<T>(),
        reads(slots, i, v),
        reads(slots, i, w),
    ensures
        v == w,
{
}

/// Every index of a fresh array reads as a default value.
pub proof fn lemma_fresh_reads_default<T: Default>(fresh: Seq<T>, i: int, v: T)
    requires
        fresh == Seq::<T>::empty(),
        reads(fresh, i, v),
    ensures
        is_default(v),
{
}

/// After `v` was written through the slot of index `i`, index `i` reads as `v`
/// and nothing else, and every other index reads only what it could read
/// before. So an index that read as a default value before, as one that was
/// never written does, still reads as a default value.
pub proof fn lemma_write_then_read<T: Default>(
    before: Seq<T>,
    grown: Seq<T>,
    after: Seq<T>,
    i: int,
    v: T,
)
    requires
        pads(before, grown),
        0 <= i < grown.len(),
        after == grown.update(i, v),
    ensures
        reads(after, i, v),
        forall|w: T| reads(after, i, w) ==> w == v,
        forall|j: int, w: T| j != i && reads(after, j, w) ==> reads(before, j, w),
        forall|j: int, w: T|
            j != i && reads(after, j, w) && (forall|u: T| reads(before, j, u) ==> is_default(u))
                ==> is_default(w),
{
}

/// After a reset, every index reads as a default value.
pub proof fn lemma_cleared_reads_default<T: Default>(cleared: Seq<T>, i: int, v: T)
    requires
        pads(Seq::<T>::empty(), cleared),
        reads(cleared, i, v),
    ensures
        is_default(v),
{
}

/// Where the canonical default instance is what `T::default()` returns,
/// indexing borrows the value that a read of the same index gives.
pub proof fn lemma_index_agrees_with_reads<T: ConstDefault>(slots: Seq<T>, i: int, v: T)
    requires
        const_is_default::<T>(),
        reads(slots, i, v),
    ensures
        v == if 0 <= i < slots.len() {
            slots[i]
        } else {
            *T::DEFAULT
        },
{
}

/// Equality does not depend on capacity: two arrays that are one sequence of
/// slots, each padded with default values to a capacity of its own, are
/// equal. This holds for element types whose `==` is equality of values and
/// whose default value is unique.
pub proof fn lemma_paddings_are_equal<T: PartialEq + Default>(
    slots: Seq<T>,
    a: Seq<T>,
    b: Seq<T>,
)
    requires
        pads(slots, a),
        pads(slots, b),
        vstd::laws_eq::obeys_concrete_eq::<T>(),
        default_is_unique::<T>(),
    ensures
        arrays_equal(a, b),
        arrays_equal(b, a),
{
    reveal(vstd::laws_eq::obeys_concrete_eq);
}

/// `a.clone_from(&b)` yields `a == b`, whether `a` had fewer slots than `b`
/// before or more. This holds for element types whose clone is the value it
/// was made from, whose `==` is equality of values and whose default value is
/// unique.
pub proof fn lemma_clone_from_yields_equal<T: Clone + PartialEq + Default>(
    source: Seq<T>,
    after: Seq<T>,
)
    requires
        is_padded_copy(source, after),
        clone_is_exact::<T>(),
        vstd::laws_eq::obeys_concrete_eq::<T>(),
        default_is_unique::<T>(),
    ensures
        arrays_equal(after, source),
        arrays_equal(source, after),
{
    lemma_paddings_are_equal(source, after, source);
}

} // verus!
