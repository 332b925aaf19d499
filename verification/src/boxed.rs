//! `BitBox`: an owned, fixed-length slice of bits.

use vstd::prelude::*;
use core::cmp::Ordering;
use vstd::arithmetic::power2::pow2;
use crate::bits::Bits;
use crate::compare::bits_ordering;
use crate::cursor::{BigEndian, Cursor};
use vstd::std_specs::cmp::{PartialEqSpecImpl, PartialOrdSpecImpl};
use crate::iter::Iter;
use crate::num::{value, inverted};
use crate::ops::{BitOp, zip_with, shifted_front, shifted_back};
use crate::pointer::{BitPtr, max_bits};
use crate::slice::{BitSlice, bit_of};

verus! {

/// Gives up a box without freeing it, handing out a reference to its value
/// that lives as long as the caller asks.
///
/// Calls `Box::leak`; the contract claims that the reference points at the
/// value that was boxed.
#[verifier::external_body]
fn leak_box<'a, X: 'a>(b: Box<X>) -> (r: &'a mut X)
    ensures
        *r == *b,
{
    Box::leak(b)
}

/// Turns a vector into a boxed slice of the same elements.
///
/// Calls `Vec::into_boxed_slice`; the contract claims that the elements and
/// their order are kept.
#[verifier::external_body]
fn vec_into_boxed_slice<X>(v: Vec<X>) -> (r: Box<[X]>)
    ensures
        r@ == v@,
{
    v.into_boxed_slice()
}

/// An owned slice of bits of fixed length, held in storage elements of type
/// `T` and ordered by cursor `C`.
pub struct BitBox<C: Cursor = BigEndian, T: Bits = u8> {
    bits: BitSlice<C, T>,
}

impl<C: Cursor, T: Bits> View for BitBox<C, T> {
    type V = Seq<bool>;

    open spec fn view(&self) -> Seq<bool> {
        self.slice()@
    }
}

impl<C: Cursor, T: Bits> BitBox<C, T> {
    /// The slice the box owns.
    pub closed spec fn slice(&self) -> BitSlice<C, T> {
        self.bits
    }

    /// The storage elements.
    pub open spec fn storage(&self) -> Seq<T> {
        self.slice().region().elems()
    }

    /// Index of the first live bit in the first storage element.
    pub open spec fn head_idx(&self) -> nat {
        self.slice().region().head_idx()
    }

    /// One past the index of the last live bit in the last storage element.
    pub open spec fn tail_idx(&self) -> nat {
        self.slice().region().tail_idx()
    }

    /// The box holds the same storage as `other`.
    pub open spec fn same_storage_as(&self, other: &BitSlice<C, T>) -> bool {
        &&& self.storage() == other.region().elems()
        &&& self.head_idx() == other.region().head_idx()
        &&& self.tail_idx() == other.region().tail_idx()
    }

    /// The box keeps the storage shape (element count, head, tail) of `old`
    /// and every storage bit outside the live region of `old`.
    pub open spec fn keeps_dead_bits_of(&self, old: &Self) -> bool {
        self.slice().keeps_dead_bits(&old.slice())
    }

    /// A box holding no bits.
    pub fn uninhabited() -> (r: Self)
        ensures
            r@ == Seq::<bool>::empty(),
            r.storage().len() == 0,
            r.head_idx() == 0,
            r.tail_idx() == 0,
    {
        BitBox { bits: BitSlice::empty() }
    }

    /// A box holding a copy of `src`: the same storage elements, head and
    /// tail, hence the same bits.
    pub fn new(src: &BitSlice<C, T>) -> (r: Self)
        ensures
            r@ == src@,
            r.same_storage_as(src),
    {
        let ptr = src.bitptr();
        let (_, elts, head, tail) = ptr.raw_parts();
        let data = ptr.into_elements();
        assert(elts == 0 ==> ptr.elems() =~= Seq::<T>::empty());
        let bits = BitSlice::from_bitptr(BitPtr::new(data, head, tail));
        let r = BitBox { bits };
        assert(r@ =~= src@);
        r
    }

    /// A box owning the region `pointer`.
    pub fn from_raw(pointer: BitPtr<T>) -> (r: Self)
        ensures
            r.slice().region() == pointer,
    {
        BitBox { bits: BitSlice::from_bitptr(pointer) }
    }

    /// Gives up the box, returning the region it owned.
    pub fn into_raw(b: BitBox<C, T>) -> (r: BitPtr<T>)
        ensures
            r == b.slice().region(),
    {
        b.bits.into_bitptr()
    }

    /// Gives up the box and hands out its slice for as long as the caller
    /// asks; the storage is never freed.
    pub fn leak<'a>(b: BitBox<C, T>) -> (r: &'a mut BitSlice<C, T>)
        ensures
            *r == b.slice(),
            r@ == b@,
    {
        leak_box(Box::new(b.bits))
    }

    /// The slice the box owns.
    pub fn as_bitslice(&self) -> (r: &BitSlice<C, T>)
        ensures
            *r == self.slice(),
            r@ == self@,
    {
        &self.bits
    }

    /// The slice the box owns, for writing.
    pub fn as_mut_bitslice(&mut self) -> (r: &mut BitSlice<C, T>)
        ensures
            *r == old(self).slice(),
            final(self).slice() == *final(r),
    {
        &mut self.bits
    }

    /// A copy of the region the box owns.
    pub fn bitptr(&self) -> (r: BitPtr<T>)
        ensures
            r.elems() == self.storage(),
            r.head_idx() == self.head_idx(),
            r.tail_idx() == self.tail_idx(),
    {
        self.bits.bitptr()
    }

    /// The lexicographic ordering of the two boxes' bits.
    pub fn cmp(&self, rhs: &Self) -> (r: Ordering)
        ensures
            r == bits_ordering(self@, rhs@),
    {
        self.bits.cmp(rhs.as_bitslice())
    }

    /// The storage elements.
    pub fn as_elements(&self) -> (r: &[T])
        ensures
            r@ == self.storage(),
    {
        self.bits.as_bitptr().elements()
    }

    /// Writes the bits of `src` over bits `start .. start + src.len()` of the
    /// box, leaving every other bit and the storage shape unchanged.
    pub fn write_range<C2: Cursor, T2: Bits>(&mut self, start: usize, src: &BitSlice<C2, T2>)
        requires
            start + src@.len() <= old(self)@.len(),
        ensures
            final(self).keeps_dead_bits_of(old(self)),
            final(self)@ == old(self)@.subrange(0, start as int) + src@ + old(self)@.subrange(
                start + src@.len(),
                old(self)@.len() as int,
            ),
    {
        self.bits.write_range(start, src);
    }

    /// Replaces storage element `i`; the head and tail indices stay, so the
    /// bits are those the new elements hold there.
    pub fn set_element(&mut self, i: usize, value: T)
        requires
            i < old(self).storage().len(),
        ensures
            final(self).storage() == old(self).storage().update(i as int, value),
            final(self).head_idx() == old(self).head_idx(),
            final(self).tail_idx() == old(self).tail_idx(),
    {
        self.bits.set_element(i, value);
    }

    /// A box holding a copy of `src`.
    pub fn from_bitslice(src: &BitSlice<C, T>) -> (r: Self)
        ensures
            r@ == src@,
            r.same_storage_as(src),
    {
        BitBox::new(src)
    }

    /// A box holding a copy of the elements of `src`, every bit of them live.
    pub fn from_elements(src: &[T]) -> (r: Self)
        requires
            src@.len() < max_bits() / T::width(),
        ensures
            r.storage() == src@,
            r.head_idx() == 0,
            r@.len() == src@.len() * T::width(),
            forall|i: int| 0 <= i < r@.len() ==> #[trigger] r@[i] == bit_of::<C, T>(src@, 0, i),
    {
        let limit = BitPtr::<T>::max_elts();
        proof {
            assert(src@.len() * T::width() <= max_bits()) by (nonlinear_arith)
                requires
                    src@.len() < limit,
                    limit * T::width() <= max_bits(),
            ;
        }
        let s = BitSlice::<C, T>::from_elements(src);
        BitBox::from_bitslice(&s)
    }

    /// A box taking over the elements of `src`, every bit of them live.
    pub fn from_boxed_slice(src: Box<[T]>) -> (r: Self)
        requires
            src@.len() < max_bits() / T::width(),
        ensures
            r.storage() == src@,
            r.head_idx() == 0,
            r@.len() == src@.len() * T::width(),
            forall|i: int| 0 <= i < r@.len() ==> #[trigger] r@[i] == bit_of::<C, T>(src@, 0, i),
    {
        let limit = BitPtr::<T>::max_elts();
        let data = src.into_vec();
        proof {
            T::lemma_width();
            assert(data@.len() * T::width() <= max_bits()) by (nonlinear_arith)
                requires
                    data@.len() < limit,
                    limit * T::width() <= max_bits(),
            ;
            if data@.len() > 0 {
                let e = data@.len();
                let w = T::width();
                assert((e - 1) * w + w == e * w) by (nonlinear_arith);
            }
        }
        let tail: u8 = if data.len() == 0 {
            0
        } else {
            T::size()
        };
        let ghost e = data@.len();
        let r = BitBox { bits: BitSlice::from_bitptr(BitPtr::new(data, 0, tail)) };
        proof {
            if e > 0 {
                assert(r.slice().region().len_spec() == (e - 1) * T::width() + T::width());
            } else {
                assert(e * T::width() == 0) by (nonlinear_arith)
                    requires
                        e == 0,
                ;
            }
        }
        r
    }

    /// Gives up the box, returning its storage elements.
    pub fn into_boxed_slice(self) -> (r: Box<[T]>)
        ensures
            r@ == self.storage(),
    {
        let ptr = self.bits.into_bitptr();
        vec_into_boxed_slice(ptr.into_elements())
    }

    /// Number of bits.
    pub fn len(&self) -> (r: usize)
        ensures
            r == self@.len(),
    {
        self.bits.len()
    }

    /// An iterator over the bits of the box, front to back.
    pub fn iter(&self) -> (r: Iter<'_, C, T>)
        ensures
            r@ == self@,
    {
        self.bits.iter()
    }

    /// Consumes the box into an iterator over its bits.
    pub fn into_iter(self) -> (r: IntoIter<C, T>)
        ensures
            r@ == self@,
            r.original() == self,
    {
        let n = self.len();
        let r = IntoIter { original: self, front: 0, back: n };
        assert(r@ =~= self@);
        r
    }

    /// Unsigned wrapping sum of the two boxes, kept at the length of `self`.
    pub fn add(self, addend: Self) -> (r: Self)
        ensures
            r.keeps_dead_bits_of(&self),
            r@.len() == self@.len(),
            value(r@) == (value(self@) + value(addend@)) % pow2(self@.len()),
    {
        let mut s = self;
        s.add_assign(addend);
        s
    }

    /// Adds `addend` to the box in place, wrapping at the box's length.
    pub fn add_assign(&mut self, addend: Self)
        ensures
            final(self).keeps_dead_bits_of(old(self)),
            final(self)@.len() == old(self)@.len(),
            value(final(self)@) == (value(old(self)@) + value(addend@)) % pow2(old(self)@.len()),
    {
        self.bits.add_assign(addend.as_bitslice());
    }

    /// Bitwise AND with `rhs`, index by index.
    pub fn bitand(self, rhs: &[bool]) -> (r: Self)
        ensures
            r.keeps_dead_bits_of(&self),
            r@ == zip_with(BitOp::And, self@, rhs@),
    {
        let mut s = self;
        s.bitand_assign(rhs);
        s
    }

    /// Bitwise AND with `rhs` in place, index by index.
    pub fn bitand_assign(&mut self, rhs: &[bool])
        ensures
            final(self).keeps_dead_bits_of(old(self)),
            final(self)@ == zip_with(BitOp::And, old(self)@, rhs@),
    {
        self.bits.bitand_assign(rhs);
    }

    /// Bitwise OR with `rhs`, index by index.
    pub fn bitor(self, rhs: &[bool]) -> (r: Self)
        ensures
            r.keeps_dead_bits_of(&self),
            r@ == zip_with(BitOp::Or, self@, rhs@),
    {
        let mut s = self;
        s.bitor_assign(rhs);
        s
    }

    /// Bitwise OR with `rhs` in place, index by index.
    pub fn bitor_assign(&mut self, rhs: &[bool])
        ensures
            final(self).keeps_dead_bits_of(old(self)),
            final(self)@ == zip_with(BitOp::Or, old(self)@, rhs@),
    {
        self.bits.bitor_assign(rhs);
    }

    /// Bitwise XOR with `rhs`, index by index.
    pub fn bitxor(self, rhs: &[bool]) -> (r: Self)
        ensures
            r.keeps_dead_bits_of(&self),
            r@ == zip_with(BitOp::Xor, self@, rhs@),
    {
        let mut s = self;
        s.bitxor_assign(rhs);
        s
    }

    /// Bitwise XOR with `rhs` in place, index by index.
    pub fn bitxor_assign(&mut self, rhs: &[bool])
        ensures
            final(self).keeps_dead_bits_of(old(self)),
            final(self)@ == zip_with(BitOp::Xor, old(self)@, rhs@),
    {
        self.bits.bitxor_assign(rhs);
    }

    /// Reads bit `index`.
    pub fn index(&self, index: usize) -> (r: bool)
        requires
            index < self@.len(),
        ensures
            r == self@[index as int],
    {
        self.bits.get(index)
    }

    /// A copy of bits `start .. end`.
    pub fn index_range(&self, start: usize, end: usize) -> (r: BitSlice<C, T>)
        requires
            start <= end <= self@.len(),
        ensures
            r@ == self@.subrange(start as int, end as int),
            r.is_range_copy(&self.slice(), start as int, end as int),
    {
        self.bits.subslice(start, end)
    }

    /// A copy of the bits from `start` to the end.
    pub fn index_from(&self, start: usize) -> (r: BitSlice<C, T>)
        requires
            start <= self@.len(),
        ensures
            r@ == self@.subrange(start as int, self@.len() as int),
            r.is_range_copy(&self.slice(), start as int, self@.len() as int),
    {
        self.bits.subslice(start, self.bits.len())
    }

    /// A copy of every bit.
    pub fn index_full(&self) -> (r: BitSlice<C, T>)
        ensures
            r@ == self@,
            r.is_range_copy(&self.slice(), 0, self@.len() as int),
    {
        let r = self.bits.subslice(0, self.bits.len());
        assert(r@ =~= self@);
        r
    }

    /// A copy of bits `start ..= end`.
    pub fn index_inclusive(&self, start: usize, end: usize) -> (r: BitSlice<C, T>)
        requires
            start <= end + 1,
            end < self@.len(),
        ensures
            r@ == self@.subrange(start as int, end + 1),
            r.is_range_copy(&self.slice(), start as int, end + 1),
    {
        // The length of a slice fits in `usize`, so `end + 1` does too.
        let _len = self.bits.len();
        self.bits.subslice(start, end + 1)
    }

    /// A copy of the bits before `end`.
    pub fn index_to(&self, end: usize) -> (r: BitSlice<C, T>)
        requires
            end <= self@.len(),
        ensures
            r@ == self@.subrange(0, end as int),
            r.is_range_copy(&self.slice(), 0, end as int),
    {
        self.bits.subslice(0, end)
    }

    /// A copy of the bits up to and including `end`.
    pub fn index_to_inclusive(&self, end: usize) -> (r: BitSlice<C, T>)
        requires
            end < self@.len(),
        ensures
            r@ == self@.subrange(0, end + 1),
            r.is_range_copy(&self.slice(), 0, end + 1),
    {
        // The length of a slice fits in `usize`, so `end + 1` does too.
        let _len = self.bits.len();
        self.bits.subslice(0, end + 1)
    }

    /// Two's-complement negation of the box read as a signed number of its
    /// own length.
    pub fn neg(self) -> (r: Self)
        ensures
            r.keeps_dead_bits_of(&self),
            r@.len() == self@.len(),
            value(r@) == (pow2(self@.len()) - value(self@)) % (pow2(self@.len()) as int),
    {
        let mut s = self;
        s.bits.neg();
        s
    }

    /// Every bit inverted.
    pub fn not(self) -> (r: Self)
        ensures
            r.keeps_dead_bits_of(&self),
            r@ == inverted(self@),
    {
        let mut s = self;
        s.bits.not();
        s
    }

    /// Every bit moved `shamt` places towards index 0, zeros filling the back.
    pub fn shl(self, shamt: usize) -> (r: Self)
        ensures
            r.keeps_dead_bits_of(&self),
            r@ == shifted_front(self@, shamt as nat),
    {
        let mut s = self;
        s.shl_assign(shamt);
        s
    }

    /// Moves every bit `shamt` places towards index 0 in place.
    pub fn shl_assign(&mut self, shamt: usize)
        ensures
            final(self).keeps_dead_bits_of(old(self)),
            final(self)@ == shifted_front(old(self)@, shamt as nat),
    {
        self.bits.shl_assign(shamt);
    }

    /// Every bit moved `shamt` places towards the back, zeros filling the front.
    pub fn shr(self, shamt: usize) -> (r: Self)
        ensures
            r.keeps_dead_bits_of(&self),
            r@ == shifted_back(self@, shamt as nat),
    {
        let mut s = self;
        s.shr_assign(shamt);
        s
    }

    /// Moves every bit `shamt` places towards the back in place.
    pub fn shr_assign(&mut self, shamt: usize)
        ensures
            final(self).keeps_dead_bits_of(old(self)),
            final(self)@ == shifted_back(old(self)@, shamt as nat),
    {
        self.bits.shr_assign(shamt);
    }
}

/// Rebuilding a box from the region another box gave up gives back the same
/// storage and the same bits.
pub proof fn law_raw_round_trip<C: Cursor, T: Bits>(b: BitBox<C, T>, p: BitPtr<T>, again: BitBox<C, T>)
    requires
        p == b.slice().region(),
        again.slice().region() == p,
    ensures
        again@ == b@,
        again.storage() == b.storage(),
        again.head_idx() == b.head_idx(),
        again.tail_idx() == b.tail_idx(),
{
    assert(again@ =~= b@);
}

impl<C: Cursor, T: Bits> Clone for BitBox<C, T> {
    /// A box with a copy of the same storage, hence the same bits.
    fn clone(&self) -> (r: Self)
        ensures
            r@ == self@,
            r.same_storage_as(&self.slice()),
    {
        BitBox { bits: self.bits.copy() }
    }
}

impl<C: Cursor, T: Bits> Default for BitBox<C, T> {
    /// The empty box.
    fn default() -> (r: Self)
        ensures
            r@ == Seq::<bool>::empty(),
            r.storage().len() == 0,
    {
        BitBox { bits: BitSlice::empty() }
    }
}

impl<C: Cursor, T: Bits> core::ops::Deref for BitBox<C, T> {
    type Target = BitSlice<C, T>;

    /// The slice the box owns.
    fn deref(&self) -> (r: &BitSlice<C, T>)
        ensures
            *r == self.slice(),
    {
        &self.bits
    }
}

impl<A: Cursor, B: Bits, C: Cursor, D: Bits> PartialEq<BitBox<C, D>> for BitBox<A, B> {
    /// Whether both boxes hold the same bits, whatever their storage.
    fn eq(&self, rhs: &BitBox<C, D>) -> (r: bool)
        ensures
            r == (self@ == rhs@),
    {
        self.bits.eq(rhs.as_bitslice())
    }
}

impl<A: Cursor, B: Bits, C: Cursor, D: Bits> PartialEqSpecImpl<BitBox<C, D>> for BitBox<A, B> {
    open spec fn obeys_eq_spec() -> bool {
        true
    }

    open spec fn eq_spec(&self, rhs: &BitBox<C, D>) -> bool {
        self@ == rhs@
    }
}

impl<C: Cursor, T: Bits> Eq for BitBox<C, T> {

}

impl<A: Cursor, B: Bits, C: Cursor, D: Bits> PartialEq<BitSlice<C, D>> for BitBox<A, B> {
    /// Whether the box holds the same bits as the slice `rhs`.
    fn eq(&self, rhs: &BitSlice<C, D>) -> (r: bool)
        ensures
            r == (self@ == rhs@),
    {
        self.bits.eq(rhs)
    }
}

impl<A: Cursor, B: Bits, C: Cursor, D: Bits> PartialEqSpecImpl<BitSlice<C, D>> for BitBox<A, B> {
    open spec fn obeys_eq_spec() -> bool {
        true
    }

    open spec fn eq_spec(&self, rhs: &BitSlice<C, D>) -> bool {
        self@ == rhs@
    }
}

impl<A: Cursor, B: Bits, C: Cursor, D: Bits> PartialEq<BitBox<C, D>> for BitSlice<A, B> {
    /// Whether the slice holds the same bits as the box `rhs`.
    fn eq(&self, rhs: &BitBox<C, D>) -> (r: bool)
        ensures
            r == (self@ == rhs@),
    {
        BitSlice::eq(self, rhs.as_bitslice())
    }
}

impl<A: Cursor, B: Bits, C: Cursor, D: Bits> PartialEqSpecImpl<BitBox<C, D>> for BitSlice<A, B> {
    open spec fn obeys_eq_spec() -> bool {
        true
    }

    open spec fn eq_spec(&self, rhs: &BitBox<C, D>) -> bool {
        self@ == rhs@
    }
}

impl<A: Cursor, B: Bits, C: Cursor, D: Bits> PartialOrd<BitBox<C, D>> for BitBox<A, B> {
    /// The lexicographic ordering of the two boxes' bits.
    fn partial_cmp(&self, rhs: &BitBox<C, D>) -> (r: Option<Ordering>)
        ensures
            r == Some(bits_ordering(self@, rhs@)),
    {
        self.bits.partial_cmp(rhs.as_bitslice())
    }
}

impl<A: Cursor, B: Bits, C: Cursor, D: Bits> PartialOrdSpecImpl<BitBox<C, D>> for BitBox<A, B> {
    open spec fn obeys_partial_cmp_spec() -> bool {
        true
    }

    open spec fn partial_cmp_spec(&self, rhs: &BitBox<C, D>) -> Option<Ordering> {
        Some(bits_ordering(self@, rhs@))
    }
}

impl<A: Cursor, B: Bits, C: Cursor, D: Bits> PartialOrd<BitSlice<C, D>> for BitBox<A, B> {
    /// The lexicographic ordering of the box's bits and the slice's bits.
    fn partial_cmp(&self, rhs: &BitSlice<C, D>) -> (r: Option<Ordering>)
        ensures
            r == Some(bits_ordering(self@, rhs@)),
    {
        self.bits.partial_cmp(rhs)
    }
}

impl<A: Cursor, B: Bits, C: Cursor, D: Bits> PartialOrdSpecImpl<BitSlice<C, D>> for BitBox<A, B> {
    open spec fn obeys_partial_cmp_spec() -> bool {
        true
    }

    open spec fn partial_cmp_spec(&self, rhs: &BitSlice<C, D>) -> Option<Ordering> {
        Some(bits_ordering(self@, rhs@))
    }
}

impl<A: Cursor, B: Bits, C: Cursor, D: Bits> PartialOrd<BitBox<C, D>> for BitSlice<A, B> {
    /// The lexicographic ordering of the slice's bits and the box's bits.
    fn partial_cmp(&self, rhs: &BitBox<C, D>) -> (r: Option<Ordering>)
        ensures
            r == Some(bits_ordering(self@, rhs@)),
    {
        BitSlice::partial_cmp(self, rhs.as_bitslice())
    }
}

impl<A: Cursor, B: Bits, C: Cursor, D: Bits> PartialOrdSpecImpl<BitBox<C, D>> for BitSlice<A, B> {
    open spec fn obeys_partial_cmp_spec() -> bool {
        true
    }

    open spec fn partial_cmp_spec(&self, rhs: &BitBox<C, D>) -> Option<Ordering> {
        Some(bits_ordering(self@, rhs@))
    }
}

impl<C: Cursor, T: Bits> core::ops::DerefMut for BitBox<C, T> {
    /// The slice the box owns, for writing.
    fn deref_mut(&mut self) -> (r: &mut BitSlice<C, T>)
        ensures
            *r == old(self).slice(),
            final(self).slice() == *final(r),
    {
        &mut self.bits
    }
}

/// An iterator that owns a box and yields its bits.
pub struct IntoIter<C: Cursor, T: Bits> {
    original: BitBox<C, T>,
    front: usize,
    back: usize,
}

impl<C: Cursor, T: Bits> View for IntoIter<C, T> {
    type V = Seq<bool>;

    /// The bits not yet yielded.
    open spec fn view(&self) -> Seq<bool> {
        self.original()@.subrange(self.front_idx() as int, self.back_idx() as int)
    }
}

impl<C: Cursor, T: Bits> IntoIter<C, T> {
    /// The box being iterated.
    pub closed spec fn original(&self) -> BitBox<C, T> {
        self.original
    }

    /// Index of the next bit yielded from the front.
    pub closed spec fn front_idx(&self) -> nat {
        self.front as nat
    }

    /// One past the index of the next bit yielded from the back.
    pub closed spec fn back_idx(&self) -> nat {
        self.back as nat
    }

    #[verifier::type_invariant]
    spec fn wf(&self) -> bool {
        self.front_idx() <= self.back_idx() <= self.original()@.len()
    }

    /// A slice iterator over the bits not yet yielded.
    pub fn iterator(&self) -> (r: Iter<'_, C, T>)
        ensures
            r.source() == self.original()@,
            r.front_idx() == self.front_idx(),
            r.back_idx() == self.back_idx(),
            r@ == self@,
    {
        proof {
            use_type_invariant(self);
        }
        Iter::new(self.original.as_bitslice(), self.front, self.back)
    }

    /// Yields the back bit, or nothing when every bit has been yielded.
    pub fn next_back(&mut self) -> (r: Option<bool>)
        ensures
            final(self).original() == old(self).original(),
            old(self)@.len() == 0 ==> r is None && final(self)@ == old(self)@,
            old(self)@.len() > 0 ==> r == Some(old(self)@.last()) && final(self)@ == old(self)@.drop_last(),
    {
        let mut slice_iter = self.iterator();
        let out = slice_iter.next_back();
        let (_, back) = slice_iter.bounds();
        self.back = back;
        out
    }

    /// Yields the front bit, or nothing when every bit has been yielded.
    pub fn next(&mut self) -> (r: Option<bool>)
        ensures
            final(self).original() == old(self).original(),
            old(self)@.len() == 0 ==> r is None && final(self)@ == old(self)@,
            old(self)@.len() > 0 ==> r == Some(old(self)@[0]) && final(self)@ == old(self)@.drop_first(),
    {
        let mut slice_iter = self.iterator();
        let out = slice_iter.next();
        let (front, _) = slice_iter.bounds();
        self.front = front;
        out
    }

    /// The exact number of bits left, as lower and upper bound.
    pub fn size_hint(&self) -> (r: (usize, Option<usize>))
        ensures
            r.0 == self@.len(),
            r.1 == Some(self@.len() as usize),
    {
        self.iterator().size_hint()
    }

    /// Number of bits left.
    pub fn count(self) -> (r: usize)
        ensures
            r == self@.len(),
    {
        self.len()
    }

    /// Number of bits left.
    pub fn len(&self) -> (r: usize)
        ensures
            r == self@.len(),
    {
        self.iterator().len()
    }

    /// Skips `n` bits and yields the next one; when fewer than `n + 1` bits
    /// remain, every bit is consumed and nothing is yielded.
    pub fn nth(&mut self, n: usize) -> (r: Option<bool>)
        ensures
            final(self).original() == old(self).original(),
            n < old(self)@.len() ==> r == Some(old(self)@[n as int]) && final(self)@ == old(self)@.skip(n + 1),
            n >= old(self)@.len() ==> r is None && final(self)@.len() == 0,
    {
        let mut slice_iter = self.iterator();
        let out = slice_iter.nth(n);
        let (front, _) = slice_iter.bounds();
        self.front = front;
        out
    }

    /// The last bit left, if any.
    pub fn last(self) -> (r: Option<bool>)
        ensures
            self@.len() == 0 ==> r is None,
            self@.len() > 0 ==> r == Some(self@.last()),
    {
        let mut it = self;
        it.next_back()
    }
}

} // verus!
