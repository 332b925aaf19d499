//! The region descriptor behind every bit slice: the storage elements, the
//! index of the first live bit in the first element (`head`), and one past
//! the index of the last live bit in the last element (`tail`).

use vstd::prelude::*;
use crate::bits::Bits;

verus! {

/// The largest number of bits a region can describe.
pub open spec fn max_bits() -> nat {
    (usize::MAX as nat) / 8
}

/// Whether `elts` elements of `width` bits with the given head and tail
/// indices describe a region.
///
/// An empty region has no elements and both indices zero. Otherwise the head
/// lies inside the first element, the tail lies in `1 ..= width`, a region of
/// one element has its tail after its head, and the bits fit in
/// [`max_bits`].
pub open spec fn valid_parts(elts: nat, head: nat, tail: nat, width: nat) -> bool {
    if elts == 0 {
        head == 0 && tail == 0
    } else {
        &&& head < width
        &&& 1 <= tail <= width
        &&& (elts == 1 ==> head < tail)
        &&& elts * width <= max_bits()
    }
}

/// The number of live bits in a region.
pub open spec fn region_len(elts: nat, head: nat, tail: nat, width: nat) -> nat {
    if elts == 0 {
        0
    } else {
        ((elts - 1) * width + tail - head) as nat
    }
}

/// Facts about division of a bit offset by the element width.
pub proof fn lemma_locate(p: int, w: int, e: int)
    requires
        0 <= p < e * w,
        0 < w,
    ensures
        0 <= p / w < e,
        0 <= p % w < w,
        p == (p / w) * w + p % w,
{
    vstd::arithmetic::div_mod::lemma_fundamental_div_mod(p, w);
    vstd::arithmetic::div_mod::lemma_div_pos_is_pos(p, w);
    vstd::arithmetic::div_mod::lemma_mod_bound(p, w);
    vstd::arithmetic::mul::lemma_mul_is_commutative(w, p / w);
    if p / w >= e {
        vstd::arithmetic::mul::lemma_mul_inequality(e, p / w, w);
        assert(false);
    }
}

/// Two offsets with the same quotient and remainder are the same offset.
pub proof fn lemma_locate_injective(p: int, q: int, w: int)
    requires
        0 <= p,
        0 <= q,
        0 < w,
        p / w == q / w,
        p % w == q % w,
    ensures
        p == q,
{
    vstd::arithmetic::div_mod::lemma_fundamental_div_mod(p, w);
    vstd::arithmetic::div_mod::lemma_fundamental_div_mod(q, w);
    assert((p / w) * w == (q / w) * w);
}

/// A region of storage elements and the live bits inside it.
pub struct BitPtr<T: Bits> {
    data: Vec<T>,
    head: u8,
    tail: u8,
}

impl<T: Bits> BitPtr<T> {
    /// The storage elements.
    pub closed spec fn elems(self) -> Seq<T> {
        self.data@
    }

    /// Index of the first live bit in the first element.
    pub closed spec fn head_idx(self) -> nat {
        self.head as nat
    }

    /// One past the index of the last live bit in the last element.
    pub closed spec fn tail_idx(self) -> nat {
        self.tail as nat
    }

    /// Number of live bits.
    pub open spec fn len_spec(self) -> nat {
        region_len(self.elems().len(), self.head_idx(), self.tail_idx(), T::width())
    }

    /// The parts describe a region.
    pub open spec fn wf(self) -> bool {
        valid_parts(self.elems().len(), self.head_idx(), self.tail_idx(), T::width())
    }

    /// Every value of the type describes a region.
    #[verifier::type_invariant]
    spec fn inv(self) -> bool {
        self.wf()
    }

    /// Facts that hold of every region.
    pub proof fn lemma_wf(self)
        requires
            self.wf(),
        ensures
            self.len_spec() <= self.elems().len() * T::width(),
            self.elems().len() * T::width() <= max_bits(),
            self.head_idx() + self.len_spec() <= self.elems().len() * T::width(),
            self.elems().len() == 0 <==> self.len_spec() == 0,
            self.elems().len() >= 1 ==> {
                &&& (self.elems().len() - 1) * T::width() + self.tail_idx() <= self.elems().len() * T::width()
                &&& (self.elems().len() - 1) * T::width() + self.tail_idx() >= self.head_idx() + 1
                &&& self.len_spec() == (self.elems().len() - 1) * T::width() + self.tail_idx() - self.head_idx()
            },
    {
        T::lemma_width();
        let e = self.elems().len();
        let w = T::width();
        let h = self.head_idx();
        let t = self.tail_idx();
        if e > 0 {
            assert((e - 1) * w + w == e * w) by (nonlinear_arith);
            assert(0 <= (e - 1) * w) by (nonlinear_arith)
                requires
                    e >= 1,
            ;
            if e == 1 {
                assert((e - 1) * w == 0) by (nonlinear_arith)
                    requires
                        e == 1,
                ;
            } else {
                assert((e - 1) * w >= w) by (nonlinear_arith)
                    requires
                        e >= 2,
                ;
            }
            assert(self.len_spec() == (e - 1) * w + t - h);
        } else {
            assert(e * w == 0) by (nonlinear_arith)
                requires
                    e == 0,
            ;
        }
    }

    /// The largest element count whose bits fit in a region.
    pub fn max_elts() -> (r: usize)
        ensures
            r == max_bits() / T::width(),
            r * T::width() <= max_bits(),
            (r + 1) * T::width() > max_bits(),
    {
        proof {
            T::lemma_width();
        }
        let all: usize = usize::MAX;
        assert(all >> 3 == all / 8) by (bit_vector);
        let w = T::size() as usize;
        let r = (all >> 3) / w;
        proof {
            let m = max_bits() as int;
            let wi = w as int;
            vstd::arithmetic::div_mod::lemma_fundamental_div_mod(m, wi);
            vstd::arithmetic::div_mod::lemma_mod_bound(m, wi);
            vstd::arithmetic::mul::lemma_mul_is_commutative(wi, m / wi);
            assert((r + 1) * wi == r * wi + wi) by (nonlinear_arith);
        }
        r
    }

    /// The empty region.
    pub fn uninhabited() -> (r: Self)
        ensures
            r.elems() == Seq::<T>::empty(),
            r.head_idx() == 0,
            r.tail_idx() == 0,
            r.len_spec() == 0,
    {
        BitPtr { data: Vec::new(), head: 0, tail: 0 }
    }

    /// Describes the live bits of `data` from bit `head` of the first element
    /// to just before bit `tail` of the last.
    ///
    /// No elements, or one element whose head equals its tail, give the empty
    /// region.
    pub fn new(data: Vec<T>, head: u8, tail: u8) -> (r: Self)
        requires
            data@.len() == 0 || (data@.len() == 1 && head == tail) || valid_parts(
                data@.len(),
                head as nat,
                tail as nat,
                T::width(),
            ),
        ensures
            (data@.len() == 0 || (data@.len() == 1 && head == tail)) ==> r.elems() == Seq::<T>::empty()
                && r.head_idx() == 0 && r.tail_idx() == 0,
            !(data@.len() == 0 || (data@.len() == 1 && head == tail)) ==> r.elems() == data@
                && r.head_idx() == head && r.tail_idx() == tail,
    {
        if data.len() == 0 || (data.len() == 1 && head == tail) {
            Self::uninhabited()
        } else {
            BitPtr { data, head, tail }
        }
    }

    /// The storage elements, their count, the head index and the tail index.
    pub fn raw_parts(&self) -> (r: (&[T], usize, u8, u8))
        ensures
            r.0@ == self.elems(),
            r.1 == self.elems().len(),
            r.2 == self.head_idx(),
            r.3 == self.tail_idx(),
            self.wf(),
    {
        proof {
            use_type_invariant(self);
        }
        (self.data.as_slice(), self.data.len(), self.head, self.tail)
    }

    /// The storage elements.
    pub fn elements(&self) -> (r: &[T])
        ensures
            r@ == self.elems(),
    {
        self.data.as_slice()
    }

    /// Number of storage elements.
    pub fn elts(&self) -> (r: usize)
        ensures
            r == self.elems().len(),
    {
        self.data.len()
    }

    /// Index of the first live bit in the first element.
    pub fn head(&self) -> (r: u8)
        ensures
            r == self.head_idx(),
            self.wf(),
    {
        proof {
            use_type_invariant(self);
        }
        self.head
    }

    /// One past the index of the last live bit in the last element.
    pub fn tail(&self) -> (r: u8)
        ensures
            r == self.tail_idx(),
    {
        self.tail
    }

    /// Number of live bits.
    pub fn len(&self) -> (r: usize)
        ensures
            r == self.len_spec(),
    {
        proof {
            use_type_invariant(self);
            self.lemma_wf();
        }
        let e = self.data.len();
        if e == 0 {
            0
        } else {
            let w = T::size() as usize;
            proof {
                assert(T::width() == w);
            }
            (e - 1) * w + self.tail as usize - self.head as usize
        }
    }

    /// Replaces storage element `i`.
    pub fn set_element(&mut self, i: usize, value: T)
        requires
            i < old(self).elems().len(),
        ensures
            final(self).elems() == old(self).elems().update(i as int, value),
            final(self).head_idx() == old(self).head_idx(),
            final(self).tail_idx() == old(self).tail_idx(),
        no_unwind
    {
        proof {
            use_type_invariant(&*self);
        }
        self.data[i] = value;
    }

    /// An identical copy of the region.
    pub fn copy(&self) -> (r: Self)
        ensures
            r.elems() == self.elems(),
            r.head_idx() == self.head_idx(),
            r.tail_idx() == self.tail_idx(),
    {
        proof {
            use_type_invariant(self);
        }
        let mut data: Vec<T> = Vec::new();
        let mut i: usize = 0;
        while i < self.data.len()
            invariant
                i <= self.data@.len(),
                data@ == self.data@.subrange(0, i as int),
            decreases self.data@.len() - i,
        {
            data.push(self.data[i]);
            i = i + 1;
        }
        assert(data@ == self.data@);
        BitPtr { data, head: self.head, tail: self.tail }
    }

    /// Gives up the region, returning its storage elements.
    pub fn into_elements(self) -> (r: Vec<T>)
        ensures
            r@ == self.elems(),
    {
        let BitPtr { data, head: _, tail: _ } = self;
        data
    }


}

} // verus!
