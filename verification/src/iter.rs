//! Iteration over the bits of a slice, from either end.

use vstd::prelude::*;
use crate::bits::Bits;
use crate::cursor::Cursor;
use crate::slice::BitSlice;

verus! {

/// An iterator over the bits of a borrowed slice; it yields the bits between
/// its front and back positions.
pub struct Iter<'a, C: Cursor, T: Bits> {
    bits: &'a BitSlice<C, T>,
    front: usize,
    back: usize,
}

impl<'a, C: Cursor, T: Bits> View for Iter<'a, C, T> {
    type V = Seq<bool>;

    /// The bits not yet yielded.
    open spec fn view(&self) -> Seq<bool> {
        self.source().subrange(self.front_idx() as int, self.back_idx() as int)
    }
}

impl<'a, C: Cursor, T: Bits> Iter<'a, C, T> {
    /// The bits of the whole slice being iterated.
    pub closed spec fn source(&self) -> Seq<bool> {
        self.bits@
    }

    /// Index of the next bit yielded from the front.
    pub closed spec fn front_idx(&self) -> nat {
        self.front as nat
    }

    /// One past the index of the next bit yielded from the back.
    pub closed spec fn back_idx(&self) -> nat {
        self.back as nat
    }

    #[verifier::type_invariant]
    spec fn wf(&self) -> bool {
        self.front_idx() <= self.back_idx() <= self.source().len()
    }

    /// An iterator over bits `front .. back` of `bits`.
    pub fn new(bits: &'a BitSlice<C, T>, front: usize, back: usize) -> (r: Self)
        requires
            front <= back <= bits@.len(),
        ensures
            r.source() == bits@,
            r.front_idx() == front,
            r.back_idx() == back,
            r@ == bits@.subrange(front as int, back as int),
    {
        Iter { bits, front, back }
    }

    /// The positions of the bits not yet yielded.
    pub fn bounds(&self) -> (r: (usize, usize))
        ensures
            r.0 == self.front_idx(),
            r.1 == self.back_idx(),
            r.0 <= r.1 <= self.source().len(),
    {
        proof {
            use_type_invariant(self);
        }
        (self.front, self.back)
    }

    /// Number of bits not yet yielded.
    pub fn len(&self) -> (r: usize)
        ensures
            r == self@.len(),
    {
        proof {
            use_type_invariant(self);
        }
        self.back - self.front
    }

    /// Yields the front bit, or nothing when every bit has been yielded.
    pub fn next(&mut self) -> (r: Option<bool>)
        ensures
            final(self).source() == old(self).source(),
            final(self).back_idx() == old(self).back_idx(),
            old(self)@.len() == 0 ==> r is None && final(self)@ == old(self)@ && final(self).front_idx() == old(self).front_idx(),
            old(self)@.len() > 0 ==> r == Some(old(self)@[0]) && final(self)@ == old(self)@.drop_first() && final(self).front_idx() == old(self).front_idx() + 1,
    {
        proof {
            use_type_invariant(&*self);
        }
        if self.front == self.back {
            return None;
        }
        let b = self.bits.get(self.front);
        self.front = self.front + 1;
        assert(self@ =~= old(self)@.drop_first());
        Some(b)
    }

    /// Yields the back bit, or nothing when every bit has been yielded.
    pub fn next_back(&mut self) -> (r: Option<bool>)
        ensures
            final(self).source() == old(self).source(),
            final(self).front_idx() == old(self).front_idx(),
            old(self)@.len() == 0 ==> r is None && final(self)@ == old(self)@ && final(self).back_idx() == old(self).back_idx(),
            old(self)@.len() > 0 ==> r == Some(old(self)@.last()) && final(self)@ == old(self)@.drop_last() && final(self).back_idx() + 1 == old(self).back_idx(),
    {
        proof {
            use_type_invariant(&*self);
        }
        if self.front == self.back {
            return None;
        }
        let b = self.bits.get(self.back - 1);
        self.back = self.back - 1;
        assert(self@ =~= old(self)@.drop_last());
        Some(b)
    }

    /// Skips `n` bits and yields the next one; when fewer than `n + 1` bits
    /// remain, every bit is consumed and nothing is yielded.
    pub fn nth(&mut self, n: usize) -> (r: Option<bool>)
        ensures
            final(self).source() == old(self).source(),
            final(self).back_idx() == old(self).back_idx(),
            n < old(self)@.len() ==> r == Some(old(self)@[n as int]) && final(self)@ == old(self)@.skip(n + 1),
            n >= old(self)@.len() ==> r is None && final(self)@.len() == 0,
    {
        proof {
            use_type_invariant(&*self);
        }
        if n >= self.back - self.front {
            self.front = self.back;
            assert(self@.len() == 0);
            return None;
        }
        let i = self.front + n;
        let b = self.bits.get(i);
        self.front = i + 1;
        assert(self@ =~= old(self)@.skip(n + 1));
        Some(b)
    }

    /// The exact number of bits left, as lower and upper bound.
    pub fn size_hint(&self) -> (r: (usize, Option<usize>))
        ensures
            r.0 == self@.len(),
            r.1 == Some(self@.len() as usize),
    {
        let n = self.len();
        (n, Some(n))
    }

    /// Number of bits left.
    pub fn count(self) -> (r: usize)
        ensures
            r == self@.len(),
    {
        self.len()
    }

    /// The last bit left, if any.
    pub fn last(self) -> (r: Option<bool>)
        ensures
            self@.len() == 0 ==> r is None,
            self@.len() > 0 ==> r == Some(self@.last()),
    {
        let mut it = self;
        it.next_back()
    }
}

impl<C: Cursor, T: Bits> BitSlice<C, T> {
    /// An iterator over all the bits, front to back.
    pub fn iter(&self) -> (r: Iter<'_, C, T>)
        ensures
            r.source() == self@,
            r.front_idx() == 0,
            r.back_idx() == self@.len(),
            r@ == self@,
    {
        let r = Iter::new(self, 0, self.len());
        assert(r@ =~= self@);
        r
    }
}

} // verus!
