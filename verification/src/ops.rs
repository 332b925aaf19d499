//! Arithmetic and bitwise operations on bit slices.

use vstd::prelude::*;
use vstd::arithmetic::power2::{pow2, lemma_pow2_unfold, lemma_pow2_pos};
use crate::bits::Bits;
use crate::cursor::Cursor;
use crate::num::{
    value, aligned, inverted, lemma_value_suffix, lemma_value_bound, lemma_value_aligned,
    lemma_value_inverted, lemma_value_zero, lemma_value_top,
};
use crate::pointer::BitPtr;
use crate::slice::{BitSlice, bit_of};

verus! {

/// 1 for a set bit, 0 for a clear one.
pub open spec fn bit_value(b: bool) -> nat {
    if b {
        1
    } else {
        0
    }
}

/// One-bit ripple-carry adder: the sum bit and the carry out of `a + b + c`.
pub fn rca1(a: bool, b: bool, c: bool) -> (r: (bool, bool))
    ensures
        bit_value(r.0) + 2 * bit_value(r.1) == bit_value(a) + bit_value(b) + bit_value(c),
{
    let y = (a != b) != c;
    let z = (a && b) || (c && (a != b));
    (y, z)
}

impl<C: Cursor, T: Bits> BitSlice<C, T> {
    /// Unsigned wrapping addition in place.
    ///
    /// Both slices are read as numbers whose most significant bit is at
    /// index 0. The addend is placed against the least significant end of
    /// `self`: when longer it loses its leading bits, when shorter it is
    /// extended with leading zeros. The carry out of the top bit is lost.
    pub fn add_assign<C2: Cursor, T2: Bits>(&mut self, addend: &BitSlice<C2, T2>)
        ensures
            final(self).keeps_dead_bits(old(self)),
            final(self)@.len() == old(self)@.len(),
            value(final(self)@) == (value(old(self)@) + value(addend@)) % pow2(old(self)@.len()),
    {
        let ghost orig = self@;
        let ghost al = aligned(addend@, orig.len());
        let ghost shape = *self;
        let n = self.len();
        let m = addend.len();
        let mut c = false;
        let mut k: usize = 0;
        proof {
            assert(self@.subrange(n as int, n as int) =~= Seq::<bool>::empty());
            assert(orig.subrange(n as int, n as int) =~= Seq::<bool>::empty());
            assert(al.subrange(n as int, n as int) =~= Seq::<bool>::empty());
            vstd::arithmetic::power2::lemma2_to64();
        }
        while k < n
            invariant
                n == orig.len(),
                m == addend@.len(),
                al == aligned(addend@, orig.len()),
                k <= n,
                self@.len() == n,
                self.keeps_dead_bits(&shape),
                forall|i: int| 0 <= i < n - k ==> self@[i] == orig[i],
                value(self@.subrange(n - k, n as int)) + (if c {
                    pow2(k as nat)
                } else {
                    0
                }) == value(orig.subrange(n - k, n as int)) + value(al.subrange(n - k, n as int)),
            decreases n - k,
        {
            let i = n - 1 - k;
            let b = if k < m {
                addend.get(m - 1 - k)
            } else {
                false
            };
            let a = self.get(i);
            let ghost before = self@;
            let (y, z) = rca1(a, b, c);
            self.set(i, y);
            proof {
                let lo = (n - k) as int;
                lemma_value_suffix(self@, lo);
                lemma_value_suffix(orig, lo);
                lemma_value_suffix(al, lo);
                assert(self@.subrange(lo, n as int) =~= before.subrange(lo, n as int));
                lemma_pow2_unfold((k + 1) as nat);
                assert(al[i as int] == b);
            }
            c = z;
            k = k + 1;
        }
        proof {
            assert(self@.subrange(0, n as int) =~= self@);
            assert(orig.subrange(0, n as int) =~= orig);
            assert(al.subrange(0, n as int) =~= al);
            lemma_value_bound(self@);
            lemma_pow2_pos(n as nat);
            let q: int = if c {
                1
            } else {
                0
            };
            vstd::arithmetic::div_mod::lemma_fundamental_div_mod_converse(
                (value(orig) + value(al)) as int,
                pow2(n as nat) as int,
                q,
                value(self@) as int,
            );
            lemma_value_aligned(addend@, n as nat);
            vstd::arithmetic::div_mod::lemma_add_mod_noop_right(
                value(orig) as int,
                value(addend@) as int,
                pow2(n as nat) as int,
            );
        }
    }
}

/// A bitwise operation applied to pairs of bits.
#[derive(Clone, Copy, PartialEq, Eq, Debug)]
pub enum BitOp {
    And,
    Or,
    Xor,
}

/// The result of a bitwise operation on two bits.
pub open spec fn apply_op(op: BitOp, l: bool, r: bool) -> bool {
    match op {
        BitOp::And => l && r,
        BitOp::Or => l || r,
        BitOp::Xor => l != r,
    }
}

/// Bits after combining `bits` with `rhs` position by position: positions
/// past the end of `rhs` keep their bit.
pub open spec fn zip_with(op: BitOp, bits: Seq<bool>, rhs: Seq<bool>) -> Seq<bool> {
    Seq::new(
        bits.len(),
        |i: int|
            if i < rhs.len() {
                apply_op(op, bits[i], rhs[i])
            } else {
                bits[i]
            },
    )
}

/// Bits moved `shamt` places towards index 0, zeros filling the back.
pub open spec fn shifted_front(bits: Seq<bool>, shamt: nat) -> Seq<bool> {
    Seq::new(bits.len(), |i: int| if i + shamt < bits.len() { bits[i + shamt] } else { false })
}

/// Bits moved `shamt` places towards the back, zeros filling the front.
pub open spec fn shifted_back(bits: Seq<bool>, shamt: nat) -> Seq<bool> {
    Seq::new(bits.len(), |i: int| if i >= shamt { bits[i - shamt] } else { false })
}

impl<C: Cursor, T: Bits> BitSlice<C, T> {
    /// Whether no bit is set.
    pub fn not_any(&self) -> (r: bool)
        ensures
            r == (forall|i: int| 0 <= i < self@.len() ==> !#[trigger] self@[i]),
    {
        self.not_any_from(0)
    }

    /// Whether some bit is set.
    pub fn any(&self) -> (r: bool)
        ensures
            r == (exists|i: int| 0 <= i < self@.len() && #[trigger] self@[i]),
    {
        !self.not_any_from(0)
    }

    /// Whether no bit at index `start` or later is set.
    fn not_any_from(&self, start: usize) -> (r: bool)
        ensures
            r == (forall|i: int| start <= i < self@.len() ==> !#[trigger] self@[i]),
    {
        let n = self.len();
        let mut i = start;
        while i < n
            invariant
                n == self@.len(),
                start <= i || n <= i,
                forall|j: int| start <= j < i && j < n ==> !#[trigger] self@[j],
            decreases n - i,
        {
            if self.get(i) {
                return false;
            }
            i = i + 1;
        }
        true
    }

    /// Writes `value` to every bit.
    pub fn set_all(&mut self, value: bool)
        ensures
            final(self).keeps_dead_bits(old(self)),
            final(self)@ == Seq::new(old(self)@.len(), |i: int| value),
    {
        let ghost shape = *self;
        let n = self.len();
        let mut i: usize = 0;
        while i < n
            invariant
                n == self@.len(),
                i <= n,
                self.keeps_dead_bits(&shape),
                forall|j: int| 0 <= j < i ==> #[trigger] self@[j] == value,
            decreases n - i,
        {
            self.set(i, value);
            i = i + 1;
        }
        assert(self@ =~= Seq::new(shape@.len(), |i: int| value));
    }

    /// Inverts every bit in place.
    pub fn not(&mut self)
        ensures
            final(self).keeps_dead_bits(old(self)),
            final(self)@ == inverted(old(self)@),
    {
        let ghost orig = self@;
        let ghost shape = *self;
        let n = self.len();
        let mut i: usize = 0;
        while i < n
            invariant
                n == orig.len(),
                i <= n,
                self@.len() == n,
                self.keeps_dead_bits(&shape),
                forall|j: int| 0 <= j < i ==> #[trigger] self@[j] == !orig[j],
                forall|j: int| i <= j < n ==> #[trigger] self@[j] == orig[j],
            decreases n - i,
        {
            let b = self.get(i);
            self.set(i, !b);
            i = i + 1;
        }
        assert(self@ =~= inverted(orig));
    }

    /// A one-bit slice holding a set bit.
    fn one() -> (r: Self)
        ensures
            r@ == seq![true],
    {
        proof {
            T::lemma_width();
        }
        let w = T::size();
        let mut x = T::zero();
        let pos = C::at(0, w);
        x.set_at(pos, true);
        let ptr = BitPtr::new(vec![x], 0, 1);
        let r = BitSlice::from_bitptr(ptr);
        proof {
            assert(1 * T::width() <= crate::pointer::max_bits());
            assert(r@.len() == 1);
            assert(r@[0] == bit_of::<C, T>(seq![x], 0, 0));
            assert((0int / (w as int)) == 0 && (0int % (w as int)) == 0);
            assert(r@ =~= seq![true]);
        }
        r
    }

    /// Two's-complement negation in place: the slice is read as a signed
    /// number of its own length and replaced by its negation, so that zero
    /// and the most negative value are left as they are.
    pub fn neg(&mut self)
        ensures
            final(self).keeps_dead_bits(old(self)),
            final(self)@.len() == old(self)@.len(),
            value(final(self)@) == (pow2(old(self)@.len()) - value(old(self)@)) % (pow2(
                old(self)@.len(),
            ) as int),
    {
        let ghost orig = self@;
        let ghost n = orig.len();
        proof {
            lemma_pow2_pos(n);
        }
        if self.is_empty() || self.not_any() {
            proof {
                lemma_value_zero(orig);
                vstd::arithmetic::div_mod::lemma_fundamental_div_mod_converse(
                    pow2(n) as int,
                    pow2(n) as int,
                    1,
                    0,
                );
            }
            return;
        }
        if self.get(0) && self.not_any_from(1) {
            proof {
                lemma_value_top(orig);
                lemma_pow2_unfold(n);
                vstd::arithmetic::div_mod::lemma_small_mod(
                    pow2((n - 1) as nat),
                    pow2(n),
                );
            }
            return;
        }
        proof {
            let z = Seq::new(n, |i: int| false);
            if value(orig) == 0 {
                assert forall|i: int| 0 <= i < n implies !orig[i] by {
                    if orig[i] {
                        assert(orig =~= orig.subrange(0, i) + orig.subrange(i, n as int));
                        crate::num::lemma_value_concat(orig.subrange(0, i), orig.subrange(i, n as int));
                        lemma_value_suffix(orig, i + 1);
                        assert(orig.subrange(i, n as int)[0] == orig[i]);
                        lemma_pow2_pos((n - i - 1) as nat);
                        assert(value(orig.subrange(i, n as int)) > 0);
                        assert(value(orig) >= value(orig.subrange(i, n as int)));
                    }
                }
                assert(false);
            }
        }
        self.not();
        proof {
            lemma_value_inverted(orig);
        }
        let one = Self::one();
        self.add_assign(&one);
        proof {
            assert(value(seq![true]) == 1) by {
                let o = seq![true];
                assert(o.len() == 1 && o[0]);
                assert(o.drop_first() =~= Seq::<bool>::empty());
                assert(value(Seq::<bool>::empty()) == 0);
                vstd::arithmetic::power2::lemma2_to64();
                assert(pow2(0) == 1);
                assert(value(o) == pow2(0) + value(o.drop_first()));
            }
        }
    }

    /// Moves every bit `shamt` places towards index 0; the vacated places at
    /// the back become zero, and a shift by the length or more clears the
    /// slice.
    pub fn shl_assign(&mut self, shamt: usize)
        ensures
            final(self).keeps_dead_bits(old(self)),
            final(self)@ == shifted_front(old(self)@, shamt as nat),
    {
        let ghost orig = self@;
        let ghost shape = *self;
        let n = self.len();
        if shamt == 0 {
            assert(orig =~= shifted_front(orig, 0));
            return;
        }
        if shamt >= n {
            self.set_all(false);
            assert(self@ =~= shifted_front(orig, shamt as nat));
            return;
        }
        let mut to: usize = 0;
        while to < n - shamt
            invariant
                n == orig.len(),
                0 < shamt < n,
                to <= n - shamt,
                self@.len() == n,
                self.keeps_dead_bits(&shape),
                forall|j: int| 0 <= j < to ==> #[trigger] self@[j] == orig[j + shamt],
                forall|j: int| to <= j < n ==> #[trigger] self@[j] == orig[j],
            decreases n - to,
        {
            let b = self.get(to + shamt);
            self.set(to, b);
            to = to + 1;
        }
        let mut bit: usize = n - shamt;
        while bit < n
            invariant
                n == orig.len(),
                0 < shamt < n,
                n - shamt <= bit <= n,
                self@.len() == n,
                self.keeps_dead_bits(&shape),
                forall|j: int| 0 <= j < n - shamt ==> #[trigger] self@[j] == orig[j + shamt],
                forall|j: int| n - shamt <= j < bit ==> !#[trigger] self@[j],
            decreases n - bit,
        {
            self.set(bit, false);
            bit = bit + 1;
        }
        assert(self@ =~= shifted_front(orig, shamt as nat));
    }

    /// Moves every bit `shamt` places towards the back; the vacated places at
    /// the front become zero, and a shift by the length or more clears the
    /// slice.
    pub fn shr_assign(&mut self, shamt: usize)
        ensures
            final(self).keeps_dead_bits(old(self)),
            final(self)@ == shifted_back(old(self)@, shamt as nat),
    {
        let ghost orig = self@;
        let ghost shape = *self;
        let n = self.len();
        if shamt == 0 {
            assert(orig =~= shifted_back(orig, 0));
            return;
        }
        if shamt >= n {
            self.set_all(false);
            assert(self@ =~= shifted_back(orig, shamt as nat));
            return;
        }
        let mut to: usize = n;
        while to > shamt
            invariant
                n == orig.len(),
                0 < shamt < n,
                shamt <= to <= n,
                self@.len() == n,
                self.keeps_dead_bits(&shape),
                forall|j: int| to <= j < n ==> #[trigger] self@[j] == orig[j - shamt],
                forall|j: int| 0 <= j < to ==> #[trigger] self@[j] == orig[j],
            decreases to,
        {
            let b = self.get(to - 1 - shamt);
            self.set(to - 1, b);
            to = to - 1;
        }
        let mut bit: usize = 0;
        while bit < shamt
            invariant
                n == orig.len(),
                0 < shamt < n,
                bit <= shamt,
                self@.len() == n,
                self.keeps_dead_bits(&shape),
                forall|j: int| shamt <= j < n ==> #[trigger] self@[j] == orig[j - shamt],
                forall|j: int| 0 <= j < bit ==> !#[trigger] self@[j],
            decreases shamt - bit,
        {
            self.set(bit, false);
            bit = bit + 1;
        }
        assert(self@ =~= shifted_back(orig, shamt as nat));
    }

    /// Combines each bit with the bit of `rhs` at the same index; bits past
    /// the end of `rhs` are left as they are.
    pub fn zip_assign(&mut self, rhs: &[bool], op: BitOp)
        ensures
            final(self).keeps_dead_bits(old(self)),
            final(self)@ == zip_with(op, old(self)@, rhs@),
    {
        let ghost orig = self@;
        let ghost shape = *self;
        let n = self.len();
        let stop = if rhs.len() < n {
            rhs.len()
        } else {
            n
        };
        let mut i: usize = 0;
        while i < stop
            invariant
                n == orig.len(),
                stop <= n,
                stop <= rhs@.len(),
                stop == n || stop == rhs@.len(),
                i <= stop,
                self@.len() == n,
                self.keeps_dead_bits(&shape),
                forall|j: int| 0 <= j < i ==> #[trigger] self@[j] == apply_op(op, orig[j], rhs@[j]),
                forall|j: int| i <= j < n ==> #[trigger] self@[j] == orig[j],
            decreases stop - i,
        {
            let l = self.get(i);
            let r = rhs[i];
            let v = match op {
                BitOp::And => l && r,
                BitOp::Or => l || r,
                BitOp::Xor => l != r,
            };
            self.set(i, v);
            i = i + 1;
        }
        assert(self@ =~= zip_with(op, orig, rhs@));
    }

    /// Bitwise AND with `rhs`, index by index.
    pub fn bitand_assign(&mut self, rhs: &[bool])
        ensures
            final(self).keeps_dead_bits(old(self)),
            final(self)@ == zip_with(BitOp::And, old(self)@, rhs@),
    {
        self.zip_assign(rhs, BitOp::And)
    }

    /// Bitwise OR with `rhs`, index by index.
    pub fn bitor_assign(&mut self, rhs: &[bool])
        ensures
            final(self).keeps_dead_bits(old(self)),
            final(self)@ == zip_with(BitOp::Or, old(self)@, rhs@),
    {
        self.zip_assign(rhs, BitOp::Or)
    }

    /// Bitwise XOR with `rhs`, index by index.
    pub fn bitxor_assign(&mut self, rhs: &[bool])
        ensures
            final(self).keeps_dead_bits(old(self)),
            final(self)@ == zip_with(BitOp::Xor, old(self)@, rhs@),
    {
        self.zip_assign(rhs, BitOp::Xor)
    }
}

} // verus!
