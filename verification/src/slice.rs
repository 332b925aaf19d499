//! Bit slices: a region of storage elements read through a bit order.

use vstd::prelude::*;
use core::marker::PhantomData;
use crate::bits::Bits;
use crate::cursor::Cursor;
use crate::pointer::{BitPtr, lemma_locate, lemma_locate_injective, max_bits};

verus! {

/// The bit at semantic index `i` of the region that starts at bit `head` of
/// `elems`, read in the order of cursor `C`.
pub open spec fn bit_of<C: Cursor, T: Bits>(elems: Seq<T>, head: nat, i: int) -> bool {
    let p = head + i;
    let w = T::width() as int;
    elems[p / w].bit(C::spec_at((p % w) as nat, w as nat))
}

/// A sequence of bits held in storage elements of type `T` and ordered by
/// cursor `C`.
pub struct BitSlice<C: Cursor, T: Bits> {
    ptr: BitPtr<T>,
    _cursor: PhantomData<C>,
}

impl<C: Cursor, T: Bits> View for BitSlice<C, T> {
    type V = Seq<bool>;

    open spec fn view(&self) -> Seq<bool> {
        Seq::new(
            self.region().len_spec(),
            |i: int| bit_of::<C, T>(self.region().elems(), self.region().head_idx(), i),
        )
    }
}

impl<C: Cursor, T: Bits> BitSlice<C, T> {
    /// The region that holds the bits.
    pub closed spec fn region(&self) -> BitPtr<T> {
        self.ptr
    }

    /// Whether two slices hold identical storage: the same elements and the
    /// same head and tail indices.
    pub open spec fn same_storage<C2: Cursor>(&self, other: &BitSlice<C2, T>) -> bool {
        &&& self.region().elems() == other.region().elems()
        &&& self.region().head_idx() == other.region().head_idx()
        &&& self.region().tail_idx() == other.region().tail_idx()
    }

    /// The storage shape (element count, head and tail) is unchanged.
    pub open spec fn same_shape(&self, other: &Self) -> bool {
        &&& self.region().elems().len() == other.region().elems().len()
        &&& self.region().head_idx() == other.region().head_idx()
        &&& self.region().tail_idx() == other.region().tail_idx()
    }

    /// Whether `self` has the storage shape of `old` and the same storage bits
    /// outside the live region of `old`: every bit of every element whose
    /// semantic place lies before the head or at or after the tail is kept.
    pub open spec fn keeps_dead_bits(&self, old: &Self) -> bool {
        &&& self.same_shape(old)
        &&& forall|e: int, place: nat|
            0 <= e < old.region().elems().len() && place < T::width() && !(old.region().head_idx()
                <= e * T::width() + place < old.region().head_idx() + old@.len()) ==> #[trigger] self.region().elems()[e].bit(
                C::spec_at(place, T::width()),
            ) == old.region().elems()[e].bit(C::spec_at(place, T::width()))
    }

    /// Whether `self` holds the storage that bits `start .. end` of `src`
    /// occupy: the elements those bits span, with the head and tail indices
    /// the bits have there. An empty range gives the empty region.
    pub open spec fn is_range_copy(&self, src: &Self, start: int, end: int) -> bool {
        let h = src.region().head_idx() as int;
        let w = T::width() as int;
        if start == end {
            &&& self.region().elems().len() == 0
            &&& self.region().head_idx() == 0
            &&& self.region().tail_idx() == 0
        } else {
            &&& self.region().elems() == src.region().elems().subrange(
                (h + start) / w,
                (h + end - 1) / w + 1,
            )
            &&& self.region().head_idx() == (h + start) % w
            &&& self.region().tail_idx() == (h + end - 1) % w + 1
        }
    }

    /// Facts about every slice.
    pub proof fn lemma_region(&self)
        requires
            self.region().wf(),
        ensures
            self@.len() == self.region().len_spec(),
            self.region().head_idx() + self@.len() <= self.region().elems().len() * T::width(),
            self.region().elems().len() * T::width() <= max_bits(),
            1 <= T::width() <= 64,
    {
        self.region().lemma_wf();
        T::lemma_width();
    }

    /// Wraps a region.
    pub fn from_bitptr(ptr: BitPtr<T>) -> (r: Self)
        ensures
            r.region() == ptr,
    {
        BitSlice { ptr, _cursor: PhantomData }
    }

    /// The empty slice.
    pub fn empty() -> (r: Self)
        ensures
            r@ == Seq::<bool>::empty(),
            r.region().elems().len() == 0,
            r.region().head_idx() == 0,
            r.region().tail_idx() == 0,
    {
        let r = BitSlice { ptr: BitPtr::uninhabited(), _cursor: PhantomData };
        assert(r@ =~= Seq::<bool>::empty());
        r
    }

    /// A copy of the region that holds the bits.
    pub fn bitptr(&self) -> (r: BitPtr<T>)
        ensures
            r.elems() == self.region().elems(),
            r.head_idx() == self.region().head_idx(),
            r.tail_idx() == self.region().tail_idx(),
    {
        self.ptr.copy()
    }

    /// The region that holds the bits.
    pub fn as_bitptr(&self) -> (r: &BitPtr<T>)
        ensures
            *r == self.region(),
    {
        &self.ptr
    }

    /// Unwraps the region.
    pub fn into_bitptr(self) -> (r: BitPtr<T>)
        ensures
            r == self.region(),
    {
        self.ptr
    }

    /// An identical copy: same storage, same bits.
    pub fn copy(&self) -> (r: Self)
        ensures
            r.same_storage(self),
            r@ == self@,
    {
        let r = BitSlice { ptr: self.ptr.copy(), _cursor: PhantomData };
        assert(r@ =~= self@);
        r
    }

    /// Reads every element of `src` as a slice whose bits are all live.
    pub fn from_elements(src: &[T]) -> (r: Self)
        requires
            src@.len() * T::width() <= max_bits(),
        ensures
            r.region().elems() == src@,
            r.region().head_idx() == 0,
            r.region().tail_idx() == (if src@.len() == 0 { 0 } else { T::width() }),
            r@.len() == src@.len() * T::width(),
            forall|i: int| 0 <= i < r@.len() ==> #[trigger] r@[i] == bit_of::<C, T>(src@, 0, i),
    {
        proof {
            T::lemma_width();
        }
        let mut data: Vec<T> = Vec::new();
        let mut i: usize = 0;
        while i < src.len()
            invariant
                i <= src@.len(),
                data@ == src@.subrange(0, i as int),
            decreases src@.len() - i,
        {
            data.push(src[i]);
            i = i + 1;
        }
        assert(data@ == src@);
        let tail: u8 = if src.len() == 0 { 0 } else { T::size() };
        let r = BitSlice { ptr: BitPtr::new(data, 0, tail), _cursor: PhantomData };
        proof {
            let e = src@.len();
            let w = T::width();
            if e > 0 {
                assert((e - 1) * w + w == e * w) by (nonlinear_arith);
            }
        }
        r
    }

    /// Number of bits.
    pub fn len(&self) -> (r: usize)
        ensures
            r == self@.len(),
    {
        self.ptr.len()
    }

    /// Whether the slice holds no bits.
    pub fn is_empty(&self) -> (r: bool)
        ensures
            r == (self@.len() == 0),
    {
        self.ptr.len() == 0
    }

    /// The element index and electrical position of bit `i`.
    fn locate(&self, i: usize) -> (r: (usize, u8))
        requires
            i < self@.len(),
        ensures
            r.0 < self.region().elems().len(),
            r.1 < T::width(),
            r.0 == (self.region().head_idx() + i) / (T::width() as int),
            r.1 == C::spec_at(
                ((self.region().head_idx() + i) % (T::width() as int)) as nat,
                T::width(),
            ),
            self@[i as int] == self.region().elems()[r.0 as int].bit(r.1 as nat),
            self.region().wf(),
    {
        let head = self.ptr.head();
        proof {
            self.lemma_region();
        }
        let w = T::size();
        let p: usize = head as usize + i;
        proof {
            lemma_locate(p as int, w as int, self.region().elems().len() as int);
        }
        let elt = p / (w as usize);
        let place = (p % (w as usize)) as u8;
        let pos = C::at(place, w);
        (elt, pos)
    }

    /// Reads bit `i`.
    pub fn get(&self, i: usize) -> (r: bool)
        requires
            i < self@.len(),
        ensures
            r == self@[i as int],
    {
        let (elt, pos) = self.locate(i);
        let e: &[T] = self.ptr.elements();
        e[elt].get_at(pos)
    }

    /// Writes bit `i`, leaving every other bit and the storage shape unchanged.
    pub fn set(&mut self, i: usize, value: bool)
        requires
            i < old(self)@.len(),
        ensures
            final(self)@ == old(self)@.update(i as int, value),
            final(self).keeps_dead_bits(old(self)),
    {
        let ghost old_self = *self;
        let (elt, pos) = self.locate(i);
        let mut x: T = self.ptr.elements()[elt];
        x.set_at(pos, value);
        self.ptr.set_element(elt, x);
        proof {
            old_self.lemma_region();
            let w = T::width() as int;
            let h = old_self.region().head_idx() as int;
            assert forall|j: int| 0 <= j < old_self@.len() && j != i implies #[trigger] self@[j]
                == old_self@[j] by {
                let pj = h + j;
                let pi = h + i;
                lemma_locate(pj, w, old_self.region().elems().len() as int);
                lemma_locate(pi, w, old_self.region().elems().len() as int);
                if pj / w == pi / w {
                    if pj % w == pi % w {
                        lemma_locate_injective(pj, pi, w);
                    }
                    C::lemma_at((pj % w) as nat, (pi % w) as nat, w as nat);
                }
            }
            assert(self@ =~= old_self@.update(i as int, value));
            let pi = h + i;
            lemma_locate(pi, w, old_self.region().elems().len() as int);
            assert forall|e: int, place: nat|
                0 <= e < old_self.region().elems().len() && place < T::width() && !(h <= e * w
                    + place < h + old_self@.len()) implies #[trigger] self.region().elems()[e].bit(
                C::spec_at(place, T::width()),
            ) == old_self.region().elems()[e].bit(C::spec_at(place, T::width())) by {
                if e == elt as int {
                    if place == (pi % w) as nat {
                        assert(e * w + place == pi);
                        assert(false);
                    }
                    C::lemma_at(place, (pi % w) as nat, w as nat);
                }
            }
        }
    }

    /// A copy of bits `start .. end`, held in the storage elements that
    /// contain them with the head and tail indices they have there.
    pub fn subslice(&self, start: usize, end: usize) -> (r: Self)
        requires
            start <= end <= self@.len(),
        ensures
            r@ == self@.subrange(start as int, end as int),
            r.is_range_copy(self, start as int, end as int),
    {
        let h = self.ptr.head() as usize;
        proof {
            self.lemma_region();
        }
        if start == end {
            let r = Self::empty();
            assert(r@ =~= self@.subrange(start as int, end as int));
            return r;
        }
        let w = T::size() as usize;
        let s = h + start;
        let l = h + end;
        let ghost e = self.region().elems().len() as int;
        proof {
            lemma_locate(s as int, w as int, e);
            lemma_locate((l - 1) as int, w as int, e);
            vstd::arithmetic::div_mod::lemma_div_is_ordered(s as int, (l - 1) as int, w as int);
        }
        let first = s / w;
        let last = (l - 1) / w;
        let head = (s % w) as u8;
        let tail = ((l - 1) % w + 1) as u8;
        let src: &[T] = self.ptr.elements();
        let mut data: Vec<T> = Vec::new();
        let mut k: usize = first;
        while k <= last
            invariant
                first <= k <= last + 1,
                last < src@.len(),
                src@ == self.region().elems(),
                data@ == src@.subrange(first as int, k as int),
            decreases last + 1 - k,
        {
            data.push(src[k]);
            k = k + 1;
        }
        let ghost elems = data@;
        proof {
            let wi = w as int;
            let cnt = (last - first + 1) as int;
            assert(cnt * wi <= e * wi) by (nonlinear_arith)
                requires
                    cnt <= e,
                    wi > 0,
            ;
            assert((cnt - 1) * wi == last * wi - first * wi) by (nonlinear_arith)
                requires
                    cnt == last - first + 1,
            ;
            if cnt == 1 {
                assert(last == first);
            }
        }
        let r = BitSlice { ptr: BitPtr::new(data, head, tail), _cursor: PhantomData };
        proof {
            let wi = w as int;
            assert(r@.len() == end - start);
            assert forall|i: int| 0 <= i < end - start implies #[trigger] r@[i] == self@[start + i] by {
                let x = s + i;
                lemma_locate(x, wi, e);
                vstd::arithmetic::div_mod::lemma_div_is_ordered(x, (l - 1) as int, wi);
                vstd::arithmetic::div_mod::lemma_div_is_ordered(s as int, x, wi);
                assert(head + i == (x / wi - first) * wi + x % wi) by (nonlinear_arith)
                    requires
                        x == (x / wi) * wi + x % wi,
                        s == first * wi + head,
                        x == s + i,
                ;
                vstd::arithmetic::div_mod::lemma_fundamental_div_mod_converse(
                    head + i,
                    wi,
                    x / wi - first,
                    x % wi,
                );
                assert(elems[x / wi - first] == self.region().elems()[x / wi]);
            }
            assert(r@ =~= self@.subrange(start as int, end as int));
        }
        r
    }


    /// Writes the bits of `src` over bits `start .. start + src.len()`,
    /// leaving every other bit and the storage shape unchanged.
    pub fn write_range<C2: Cursor, T2: Bits>(&mut self, start: usize, src: &BitSlice<C2, T2>)
        requires
            start + src@.len() <= old(self)@.len(),
        ensures
            final(self).keeps_dead_bits(old(self)),
            final(self)@ == old(self)@.subrange(0, start as int) + src@ + old(self)@.subrange(
                start + src@.len(),
                old(self)@.len() as int,
            ),
    {
        let ghost orig = self@;
        let ghost shape = *self;
        let n = self.len();
        let m = src.len();
        let mut k: usize = 0;
        while k < m
            invariant
                n == orig.len(),
                m == src@.len(),
                start + m <= orig.len(),
                k <= m,
                self@.len() == orig.len(),
                self.keeps_dead_bits(&shape),
                forall|j: int| 0 <= j < start ==> #[trigger] self@[j] == orig[j],
                forall|j: int| start <= j < start + k ==> #[trigger] self@[j] == src@[j - start],
                forall|j: int| start + k <= j < orig.len() ==> #[trigger] self@[j] == orig[j],
            decreases m - k,
        {
            let b = src.get(k);
            self.set(start + k, b);
            k = k + 1;
        }
        assert(self@ =~= orig.subrange(0, start as int) + src@ + orig.subrange(
            start + src@.len(),
            orig.len() as int,
        ));
    }

    /// Replaces storage element `i`; the head and tail indices stay, so the
    /// bits are those the new elements hold there.
    pub fn set_element(&mut self, i: usize, value: T)
        requires
            i < old(self).region().elems().len(),
        ensures
            final(self).region().elems() == old(self).region().elems().update(i as int, value),
            final(self).region().head_idx() == old(self).region().head_idx(),
            final(self).region().tail_idx() == old(self).region().tail_idx(),
    {
        self.ptr.set_element(i, value);
    }

}

} // verus!
