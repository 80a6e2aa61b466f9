//! An indexed collection of small unsigned values of a fixed bit width,
//! packed densely into 32-bit words.

use crate::default_vec::{arrays_equal, index_of, DefaultVec};
use crate::packing::{
    lemma_and_word, lemma_join, lemma_merge_keeps_width, lemma_or_word, lemma_set_word,
    lemma_split, lemma_unpack, lemma_word_of_slots, lemma_word_written, lemma_zero_word, mask_of,
    slot_of, slot_written, slots_per_word, tidy, unpack, unpack_all, valid_width, value_at,
    word_at,
};
use core::marker::PhantomData;
use vstd::prelude::*;
use vstd::std_specs::cmp::PartialEqSpec;
use vstd::std_specs::iter::IteratorSpec;

verus! {

type Elt = u32;

/// The bit width of the values of a [`FlagVec`]: known at compile time
/// ([`Static`]) or only at run time (`u32`). Both lay the values out in the
/// same way.
pub trait FlagLength: Clone + Eq {
    /// The number of bits per value.
    spec fn spec_len(&self) -> u32;

    /// The number of bits per value.
    fn len(&self) -> (n: u32)
        ensures
            n == self.spec_len(),
    ;

    /// A clone stands for the same width.
    proof fn lemma_clone_keeps_len(&self, copy: &Self)
        requires
            cloned(*self, *copy),
        ensures
            copy.spec_len() == self.spec_len(),
    ;

    /// The mask of the low `len()` bits.
    #[inline]
    fn base_mask(&self) -> (m: Elt)
        requires
            valid_width(self.spec_len()),
        ensures
            m == mask_of(self.spec_len()),
    {
        let n: u32 = self.len();
        assert(0xffff_ffffu32 >> ((32 - n) as u32) == mask_of(n)) by (bit_vector)
            requires
                1 <= n <= 32,
        ;
        Elt::MAX >> (Elt::BITS - n)
    }

    /// How many values one word holds.
    #[inline]
    fn chunk_size(&self) -> (c: u32)
        requires
            valid_width(self.spec_len()),
        ensures
            c == slots_per_word(self.spec_len()),
    {
        Elt::BITS / self.len()
    }

    /// Splits the index of a value into the index of its word and the
    /// position of its lowest bit in that word.
    #[inline]
    fn split(&self, x: usize) -> (r: (usize, u32))
        requires
            valid_width(self.spec_len()),
        ensures
            r.0 == x as int / slots_per_word(self.spec_len()),
            r.1 == (x as int % slots_per_word(self.spec_len())) * self.spec_len(),
            r.1 + self.spec_len() <= 32,
    {
        let chunk_size: u32 = self.chunk_size();
        proof {
            lemma_split(x as int, self.spec_len());
        }
        let offset: u32 = (x % chunk_size as usize) as u32 * self.len();
        (x / chunk_size as usize, offset)
    }
}

/// A width of `N` bits that is part of the type and takes no space.
#[derive(Copy, Clone, Debug, Eq, PartialEq)]
pub struct Static<const N: u32>;

impl<const N: u32> FlagLength for Static<N> {
    open spec fn spec_len(&self) -> u32 {
        N
    }

    #[inline]
    fn len(&self) -> u32 {
        N
    }

    proof fn lemma_clone_keeps_len(&self, copy: &Self) {
    }
}

impl FlagLength for u32 {
    open spec fn spec_len(&self) -> u32 {
        *self
    }

    #[inline]
    fn len(&self) -> u32 {
        *self
    }

    proof fn lemma_clone_keeps_len(&self, copy: &Self) {
    }
}

/// An indexed collection of values of `N` bits each. It behaves like a
/// [`DefaultVec<u32>`](DefaultVec) that only keeps the low `N` bits of what is
/// written to it.
///
/// The view is the sequence of the values that the allocated words hold; an
/// index beyond it reads as zero. Use [`StaticFlagVec`] when `N` is known at
/// compile time, [`DynamicFlagVec`] when it is not.
#[derive(Debug)]
pub struct FlagVec<N: FlagLength, I = usize>(N, DefaultVec<Elt>, PhantomData<I>);

/// [`FlagVec`] where `N` is known at compile time.
pub type StaticFlagVec<const N: u32, I = usize> = FlagVec<Static<N>, I>;

/// [`FlagVec`] where `N` is not known at compile time.
pub type DynamicFlagVec<I = usize> = FlagVec<u32, I>;

impl<N: FlagLength, I> View for FlagVec<N, I> {
    type V = Seq<Elt>;

    /// The values that the allocated words hold, in index order: each word
    /// holds `32 / width` of them, the first one in its lowest bits.
    open spec fn view(&self) -> Seq<Elt> {
        unpack_all(self.words(), self.width())
    }
}

impl<N: FlagLength, I> FlagVec<N, I> {
    /// The number of bits per value.
    pub closed spec fn width(&self) -> u32 {
        self.0.spec_len()
    }

    /// The allocated words, which is all that `==` looks at.
    pub closed spec fn words(&self) -> Seq<Elt> {
        self.1@
    }

    /// In every word, the bits above the last value are zero.
    pub open spec fn unused_bits_clear(&self) -> bool {
        forall|i: int|
            0 <= i < self.words().len() ==> tidy(#[trigger] self.words()[i], self.width())
    }

    /// The width is one that the words can hold, and no unused bit is set.
    pub open spec fn wf(&self) -> bool {
        &&& valid_width(self.width())
        &&& self.unused_bits_clear()
    }
}

impl<const N: u32, I> Default for StaticFlagVec<N, I> {
    /// An empty collection of values of `N` bits. It is well formed where
    /// `N` is a width from 1 to 32.
    fn default() -> (r: Self)
        ensures
            r.width() == N,
            r@ == Seq::<Elt>::empty(),
            r.words() == Seq::<Elt>::empty(),
            valid_width(N) ==> r.wf(),
    {
        let r = FlagVec(Static, DefaultVec::default(), PhantomData);
        assert(r@ =~= Seq::<Elt>::empty()) by (nonlinear_arith)
            requires
                r@.len() == 0 * slots_per_word(N),
        ;
        r
    }
}

impl DynamicFlagVec {
    /// An empty collection of values of `flag_bit_len` bits.
    pub fn new(flag_bit_len: u32) -> (r: Self)
        requires
            valid_width(flag_bit_len),
        ensures
            r.wf(),
            r.width() == flag_bit_len,
            r@ == Seq::<Elt>::empty(),
            r.words() == Seq::<Elt>::empty(),
    {
        let r = FlagVec(flag_bit_len, DefaultVec::default(), PhantomData);
        assert(r@ =~= Seq::<Elt>::empty()) by (nonlinear_arith)
            requires
                r@.len() == 0 * slots_per_word(flag_bit_len),
        ;
        r
    }

    /// An empty collection of values of `flag_bit_len` bits, or `None` where
    /// that is no width from 1 to 32.
    pub fn try_new(flag_bit_len: u32) -> (r: Option<Self>)
        ensures
            r is Some <==> valid_width(flag_bit_len),
            r matches Some(s) ==> s.wf() && s.width() == flag_bit_len && s@ == Seq::<Elt>::empty()
                && s.words() == Seq::<Elt>::empty(),
    {
        if 1 <= flag_bit_len && flag_bit_len <= Elt::BITS {
            Some(Self::new(flag_bit_len))
        } else {
            None
        }
    }
}

impl<N: FlagLength, I> Clone for FlagVec<N, I> {
    /// A copy of the same width that holds the same words.
    fn clone(&self) -> (r: Self)
        ensures
            r.width() == self.width(),
            r.words() == self.words(),
            r@ == self@,
            self.wf() ==> r.wf(),
    {
        let width = self.0.clone();
        let words = self.1.clone();
        proof {
            self.0.lemma_clone_keeps_len(&width);
        }
        FlagVec(width, words, PhantomData)
    }

    /// The same as the method [`FlagVec::clone_from`], for callers that go
    /// through the trait.
    fn clone_from(&mut self, source: &Self)
        ensures
            final(self).width() == source.width(),
            arrays_equal(final(self).words(), source.words()),
            old(self).words().len() >= source.words().len() ==> final(self).words().len() == old(
                self,
            ).words().len(),
            source.wf() ==> {
                &&& final(self).wf()
                &&& source@.len() <= final(self)@.len()
                &&& forall|y: int| value_at(final(self)@, y) == value_at(source@, y)
            },
    {
        FlagVec::clone_from(self, source)
    }
}

impl<N: FlagLength, I> FlagVec<N, I> {
    /// Makes `self` a copy of `source` in place: it takes over the width and
    /// the values of `source`, and keeps its own allocation where that has
    /// room enough.
    pub fn clone_from(&mut self, source: &Self)
        ensures
            final(self).width() == source.width(),
            arrays_equal(final(self).words(), source.words()),
            old(self).words().len() >= source.words().len() ==> final(self).words().len() == old(
                self,
            ).words().len(),
            source.wf() ==> {
                &&& final(self).wf()
                &&& source@.len() <= final(self)@.len()
                &&& forall|y: int| value_at(final(self)@, y) == value_at(source@, y)
            },
    {
        let width = source.0.clone();
        proof {
            source.0.lemma_clone_keeps_len(&width);
        }
        self.0 = width;
        self.1.clone_from(&source.1);
        proof {
            let n = source.0.spec_len();
            let c = slots_per_word(n);
            assert forall|i: int| 0 <= i < self.words().len() implies self.words()[i] == word_at(
                source.words(),
                i,
            ) by {}
            if source.wf() {
                lemma_split(0, n);
                assert(source.words().len() * c <= self.words().len() * c) by (nonlinear_arith)
                    requires
                        source.words().len() <= self.words().len(),
                        c >= 1,
                ;
                assert forall|y: int| value_at(self@, y) == value_at(source@, y) by {
                    if y >= 0 {
                        lemma_unpack(self.words(), n, y);
                        lemma_unpack(source.words(), n, y);
                    }
                }
                assert forall|i: int| 0 <= i < self.words().len() implies tidy(
                    #[trigger] self.words()[i],
                    n,
                ) by {
                    lemma_zero_word(n, 0);
                }
            }
        }
    }
}

impl<N: FlagLength, I> PartialEq for FlagVec<N, I> {
    /// Compares the words and nothing else: two collections of different
    /// widths are equal when their words are.
    fn eq(&self, other: &Self) -> (r: bool) {
        self.1 == other.1
    }
}

impl<N: FlagLength, I> vstd::std_specs::cmp::PartialEqSpecImpl for FlagVec<N, I> {
    open spec fn obeys_eq_spec() -> bool {
        true
    }

    open spec fn eq_spec(&self, other: &Self) -> bool {
        arrays_equal(self.words(), other.words())
    }
}

impl<N: FlagLength, I> Eq for FlagVec<N, I> {

}

impl<N: FlagLength, I: Into<usize>> FlagVec<N, I> {
    /// Equivalent to `self.set(x, self.get(x) | v)`.
    pub fn or_assign(&mut self, x: I, v: Elt)
        requires
            old(self).wf(),
            forall|idx: usize|
                index_of(x, idx) ==> idx as int / slots_per_word(old(self).width()) < usize::MAX,
        ensures
            final(self).wf(),
            final(self).width() == old(self).width(),
            exists|idx: usize|
                index_of(x, idx) && slot_written(
                    old(self)@,
                    idx as int,
                    value_at(old(self)@, idx as int) | (v & mask_of(old(self).width())),
                    final(self)@,
                ),
    {
        let idx: usize = x.into();
        assert(index_of(x, idx));
        let (chunk_idx, offset) = self.0.split(idx);
        let mask: Elt = (self.0.base_mask() & v) << offset;
        let chunk = self.1.get_mut(chunk_idx);
        let ghost was = *chunk;
        *chunk |= mask;
        proof {
            let n = self.0.spec_len();
            lemma_split(idx as int, n);
            lemma_unpack(old(self).words(), n, idx as int);
            lemma_or_word(was, v, n, idx as int % slots_per_word(n));
            lemma_word_written(
                old(self).words(),
                self.words(),
                n,
                idx as int,
                was,
                value_at(old(self)@, idx as int) | (v & mask_of(n)),
            );
        }
    }

    /// Equivalent to `self.set(x, self.get(x) & v)`.
    pub fn and_assign(&mut self, x: I, v: Elt)
        requires
            old(self).wf(),
            forall|idx: usize|
                index_of(x, idx) ==> idx as int / slots_per_word(old(self).width()) < usize::MAX,
        ensures
            final(self).wf(),
            final(self).width() == old(self).width(),
            exists|idx: usize|
                index_of(x, idx) && slot_written(
                    old(self)@,
                    idx as int,
                    value_at(old(self)@, idx as int) & (v & mask_of(old(self).width())),
                    final(self)@,
                ),
    {
        let idx: usize = x.into();
        assert(index_of(x, idx));
        let (chunk_idx, offset) = self.0.split(idx);
        let mask: Elt = (self.0.base_mask() & !v) << offset;
        let chunk = self.1.get_mut(chunk_idx);
        let ghost was = *chunk;
        *chunk &= !mask;
        proof {
            let n = self.0.spec_len();
            lemma_split(idx as int, n);
            lemma_unpack(old(self).words(), n, idx as int);
            lemma_and_word(was, v, n, idx as int % slots_per_word(n));
            lemma_word_written(
                old(self).words(),
                self.words(),
                n,
                idx as int,
                was,
                value_at(old(self)@, idx as int) & (v & mask_of(n)),
            );
        }
    }

    /// Sets the element at index `x` to the low `N` bits of `v`. The other
    /// elements stay as they are.
    pub fn set(&mut self, x: I, v: Elt)
        requires
            old(self).wf(),
            forall|idx: usize|
                index_of(x, idx) ==> idx as int / slots_per_word(old(self).width()) < usize::MAX,
        ensures
            final(self).wf(),
            final(self).width() == old(self).width(),
            exists|idx: usize|
                index_of(x, idx) && slot_written(
                    old(self)@,
                    idx as int,
                    v & mask_of(old(self).width()),
                    final(self)@,
                ),
    {
        let idx: usize = x.into();
        assert(index_of(x, idx));
        let (chunk_idx, offset) = self.0.split(idx);
        let mask_or: Elt = (self.0.base_mask() & v) << offset;
        let mask_and: Elt = (self.0.base_mask() & !v) << offset;
        let chunk = self.1.get_mut(chunk_idx);
        let ghost was = *chunk;
        *chunk |= mask_or;
        *chunk &= !mask_and;
        proof {
            let n = self.0.spec_len();
            lemma_split(idx as int, n);
            lemma_set_word(was, v, n, idx as int % slots_per_word(n));
            lemma_word_written(
                old(self).words(),
                self.words(),
                n,
                idx as int,
                was,
                v & mask_of(n),
            );
        }
    }

    /// Returns the element at index `x`, zero where nothing was written. It
    /// never grows the allocation.
    pub fn get(&self, x: I) -> (r: Elt)
        requires
            self.wf(),
        ensures
            exists|idx: usize| index_of(x, idx) && r == value_at(self@, idx as int),
    {
        let idx: usize = x.into();
        assert(index_of(x, idx));
        let (chunk_idx, offset) = self.0.split(idx);
        let chunk: Elt = self.1.get(chunk_idx);
        proof {
            lemma_unpack(self.words(), self.0.spec_len(), idx as int);
        }
        (chunk >> offset) & self.0.base_mask()
    }

    /// Same as `get`, but it already reserves space for `x`. No element
    /// changes.
    pub fn get_reserve(&mut self, x: I) -> (r: Elt)
        requires
            old(self).wf(),
            forall|idx: usize|
                index_of(x, idx) ==> idx as int / slots_per_word(old(self).width()) < usize::MAX,
        ensures
            final(self).wf(),
            final(self).width() == old(self).width(),
            exists|idx: usize|
                index_of(x, idx) && r == value_at(old(self)@, idx as int) && slot_written(
                    old(self)@,
                    idx as int,
                    r,
                    final(self)@,
                ),
    {
        let idx: usize = x.into();
        assert(index_of(x, idx));
        let (chunk_idx, offset) = self.0.split(idx);
        let mask: Elt = self.0.base_mask();
        let chunk = self.1.get_mut(chunk_idx);
        let ghost was = *chunk;
        let r: Elt = (*chunk >> offset) & mask;
        proof {
            let n = self.0.spec_len();
            lemma_split(idx as int, n);
            lemma_unpack(old(self).words(), n, idx as int);
            lemma_word_written(old(self).words(), self.words(), n, idx as int, was, r);
        }
        r
    }

    /// Resets all elements to zero. The capacity stays as it is.
    pub fn clear(&mut self)
        ensures
            final(self).width() == old(self).width(),
            final(self)@.len() == old(self)@.len(),
            forall|y: int| 0 <= y < final(self)@.len() ==> final(self)@[y] == 0,
            valid_width(old(self).width()) ==> final(self).wf(),
    {
        self.1.clear();
        proof {
            let n = self.0.spec_len();
            assert forall|y: int| 0 <= y < self@.len() implies self@[y] == 0 by {
                lemma_zero_word(n, y % slots_per_word(n));
            }
            assert forall|i: int| 0 <= i < self.words().len() implies tidy(
                #[trigger] self.words()[i],
                n,
            ) by {
                lemma_zero_word(n, 0);
            }
        }
    }

    /// The number of elements that the allocated words hold, or
    /// `usize::MAX` where `usize` cannot hold that number.
    pub fn capacity(&self) -> (n: usize)
        requires
            self.wf(),
        ensures
            n == if self@.len() <= usize::MAX {
                self@.len()
            } else {
                usize::MAX as nat
            },
    {
        match self.1.capacity().checked_mul(self.0.chunk_size() as usize) {
            Some(n) => n,
            None => usize::MAX,
        }
    }

    /// Iterates over the elements of `self` in index order: `capacity()` of
    /// them, the element at index `i` being what `get(i)` returns.
    pub fn iter(&self) -> (it: std::vec::IntoIter<Elt>)
        requires
            self.wf(),
        ensures
            it.remaining() == self@,
            it.remaining().len() == self@.len(),
            forall|i: int| 0 <= i < self@.len() ==> it.remaining()[i] == value_at(self@, i),
    {
        let chunk_size: u32 = self.0.chunk_size();
        let len: u32 = self.0.len();
        let mask: Elt = self.0.base_mask();
        let words: usize = self.1.capacity();
        let mut out: Vec<Elt> = Vec::new();
        let mut i: usize = 0;
        while i < words
            invariant
                self.wf(),
                i <= words == self.words().len(),
                chunk_size == slots_per_word(self.0.spec_len()),
                len == self.0.spec_len(),
                mask == mask_of(len),
                out@.len() == i * chunk_size,
                forall|y: int| 0 <= y < out@.len() ==> out@[y] == unpack(self.words(), len, y),
            decreases words - i,
        {
            let word: Elt = self.1.get(i);
            let mut k: u32 = 0;
            while k < chunk_size
                invariant
                    i < words == self.words().len(),
                    valid_width(len),
                    chunk_size == slots_per_word(len),
                    mask == mask_of(len),
                    word == self.words()[i as int],
                    k <= chunk_size,
                    out@.len() == i * chunk_size + k,
                    forall|y: int| 0 <= y < out@.len() ==> out@[y] == unpack(self.words(), len, y),
                decreases chunk_size - k,
            {
                proof {
                    lemma_join(i as int, k as int, len);
                }
                out.push((word >> (k * len)) & mask);
                k = k + 1;
            }
            proof {
                lemma_split(0, len);
                lemma_join(i as int, 0, len);
            }
            i = i + 1;
        }
        out.into_iter()
    }
}

/// Every value that a collection holds fits its width. So `or_assign(x, v)`
/// is `set(x, get(x) | v)` and `and_assign(x, v)` is `set(x, get(x) & v)`:
/// each writes the low bits of the merged value.
pub proof fn lemma_values_fit_width<N: FlagLength, I>(s: &FlagVec<N, I>, x: int, v: Elt)
    requires
        valid_width(s.width()),
    ensures
        ({
            let held = value_at(s@, x);
            let mask = mask_of(s.width());
            &&& held & mask == held
            &&& held | (v & mask) == (held | v) & mask
            &&& held & (v & mask) == (held & v) & mask
        }),
{
    let n = s.width();
    if 0 <= x < s@.len() {
        let c = slots_per_word(n);
        lemma_merge_keeps_width(word_at(s.words(), x / c), n, x % c, v);
    } else {
        lemma_zero_word(n, 0);
        lemma_merge_keeps_width(0, n, 0, v);
    }
}

/// Two well-formed collections of one width that hold the same value at
/// every index are equal, whatever their capacities are.
pub proof fn lemma_same_values_are_equal<N: FlagLength, I>(a: &FlagVec<N, I>, b: &FlagVec<N, I>)
    requires
        a.wf(),
        b.wf(),
        a.width() == b.width(),
        forall|y: int| value_at(a@, y) == value_at(b@, y),
    ensures
        a.eq_spec(b),
        b.eq_spec(a),
{
    let n = a.width();
    let c = slots_per_word(n);
    assert forall|i: int| 0 <= i implies word_at(a.words(), i) == word_at(b.words(), i) by {
        let wa = word_at(a.words(), i);
        let wb = word_at(b.words(), i);
        lemma_zero_word(n, 0);
        assert forall|k: int| 0 <= k < c implies slot_of(wa, n, k) == slot_of(wb, n, k) by {
            let y = i * c + k;
            lemma_join(i, k, n);
            lemma_unpack(a.words(), n, y);
            lemma_unpack(b.words(), n, y);
            assert(value_at(a@, y) == value_at(b@, y));
        }
        lemma_word_of_slots(wa, wb, n);
    }
    assert forall|j: int| 0 <= j < a.words().len() implies a.words()[j] == word_at(
        b.words(),
        j,
    ) by {
        assert(word_at(a.words(), j) == word_at(b.words(), j));
    }
    assert forall|j: int| 0 <= j < b.words().len() implies b.words()[j] == word_at(
        a.words(),
        j,
    ) by {
        assert(word_at(a.words(), j) == word_at(b.words(), j));
    }
}

/// After `set(x, v)`, `get(x)` gives `v & ((1 << n) - 1)`, the low `n` bits of
/// `v`, and every other index gives what it gave before.
pub proof fn lemma_set_then_get(before: Seq<Elt>, after: Seq<Elt>, x: int, v: Elt, n: u32)
    requires
        slot_written(before, x, v & mask_of(n), after),
    ensures
        value_at(after, x) == v & mask_of(n),
        forall|y: int| y != x ==> value_at(after, y) == value_at(before, y),
{
}

} // verus!
