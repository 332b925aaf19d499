//! Equality and ordering of bit slices by their bits.

use vstd::prelude::*;
use core::cmp::Ordering;
use crate::bits::Bits;
use crate::cursor::Cursor;
use crate::slice::BitSlice;

verus! {

/// Lexicographic order on bits, `false` before `true`: at the first index
/// where the sequences differ, the one with the clear bit is smaller; when
/// one is a prefix of the other, the shorter is smaller.
pub open spec fn bits_lt(a: Seq<bool>, b: Seq<bool>) -> bool
    decreases a.len(),
{
    if a.len() == 0 {
        b.len() > 0
    } else if b.len() == 0 {
        false
    } else if a[0] != b[0] {
        b[0]
    } else {
        bits_lt(a.drop_first(), b.drop_first())
    }
}

/// The ordering of two bit sequences.
pub open spec fn bits_ordering(a: Seq<bool>, b: Seq<bool>) -> Ordering {
    if bits_lt(a, b) {
        Ordering::Less
    } else if a == b {
        Ordering::Equal
    } else {
        Ordering::Greater
    }
}

/// Exactly one of `a < b`, `a == b`, `b < a` holds.
pub proof fn lemma_bits_trichotomy(a: Seq<bool>, b: Seq<bool>)
    ensures
        bits_lt(a, b) ==> !bits_lt(b, a) && a != b,
        bits_lt(b, a) ==> a != b,
        !bits_lt(a, b) && !bits_lt(b, a) ==> a == b,
    decreases a.len(),
{
    if a.len() > 0 && b.len() > 0 && a[0] == b[0] {
        lemma_bits_trichotomy(a.drop_first(), b.drop_first());
        if a.drop_first() == b.drop_first() {
            assert forall|i: int| 0 <= i < a.len() implies a[i] == b[i] by {
                if i > 0 {
                    assert(a[i] == a.drop_first()[i - 1]);
                    assert(b[i] == b.drop_first()[i - 1]);
                }
            }
            assert(a =~= b);
        }
        if a == b {
            assert(a.drop_first() == b.drop_first());
        }
    } else if a.len() == 0 && b.len() == 0 {
        assert(a =~= b);
    }
}

/// The order is transitive.
pub proof fn law_ordering_transitive(a: Seq<bool>, b: Seq<bool>, c: Seq<bool>)
    requires
        bits_lt(a, b),
        bits_lt(b, c),
    ensures
        bits_lt(a, c),
    decreases a.len(),
{
    if a.len() > 0 && b.len() > 0 && c.len() > 0 && a[0] == b[0] && b[0] == c[0] {
        law_ordering_transitive(a.drop_first(), b.drop_first(), c.drop_first());
    }
}

/// Swapping the operands reverses the ordering.
pub proof fn law_ordering_reverses(a: Seq<bool>, b: Seq<bool>)
    ensures
        (bits_ordering(a, b) == Ordering::Less) == (bits_ordering(b, a) == Ordering::Greater),
        (bits_ordering(a, b) == Ordering::Equal) == (bits_ordering(b, a) == Ordering::Equal),
        (bits_ordering(a, b) == Ordering::Greater) == (bits_ordering(b, a) == Ordering::Less),
{
    lemma_bits_trichotomy(a, b);
    lemma_bits_trichotomy(b, a);
}

/// Two sequences compare equal exactly when they hold the same bits.
pub proof fn law_ordering_equal(a: Seq<bool>, b: Seq<bool>)
    ensures
        (bits_ordering(a, b) == Ordering::Equal) == (a == b),
{
    lemma_bits_trichotomy(a, b);
}

/// A proper prefix is smaller.
proof fn lemma_prefix_lt(a: Seq<bool>, b: Seq<bool>)
    requires
        a.len() < b.len(),
        forall|i: int| 0 <= i < a.len() ==> a[i] == b[i],
    ensures
        bits_lt(a, b),
    decreases a.len(),
{
    if a.len() > 0 {
        assert(a[0] == b[0]);
        assert forall|i: int| 0 <= i < a.drop_first().len() implies a.drop_first()[i]
            == b.drop_first()[i] by {
            assert(a[i + 1] == b[i + 1]);
        }
        lemma_prefix_lt(a.drop_first(), b.drop_first());
    }
}

/// At the first index where two sequences differ, the one with the clear
/// bit is smaller.
proof fn lemma_first_difference_lt(a: Seq<bool>, b: Seq<bool>, k: int)
    requires
        0 <= k < a.len(),
        k < b.len(),
        forall|i: int| 0 <= i < k ==> a[i] == b[i],
        !a[k],
        b[k],
    ensures
        bits_lt(a, b),
    decreases k,
{
    if k > 0 {
        assert(a[0] == b[0]);
        assert forall|i: int| 0 <= i < k - 1 implies a.drop_first()[i] == b.drop_first()[i] by {
            assert(a[i + 1] == b[i + 1]);
        }
        lemma_first_difference_lt(a.drop_first(), b.drop_first(), k - 1);
    }
}

/// A proper prefix sorts before every extension of it, and after it in the
/// other direction.
pub proof fn law_prefix_sorts_first(a: Seq<bool>, b: Seq<bool>)
    requires
        a.len() < b.len(),
        forall|i: int| 0 <= i < a.len() ==> a[i] == b[i],
    ensures
        bits_ordering(a, b) == Ordering::Less,
        bits_ordering(b, a) == Ordering::Greater,
{
    lemma_prefix_lt(a, b);
    lemma_bits_trichotomy(a, b);
}

/// The first index where two sequences differ decides their order: the
/// sequence with the clear bit there sorts first, whatever follows.
pub proof fn law_first_difference_decides(a: Seq<bool>, b: Seq<bool>, k: int)
    requires
        0 <= k < a.len(),
        k < b.len(),
        forall|i: int| 0 <= i < k ==> a[i] == b[i],
        !a[k],
        b[k],
    ensures
        bits_ordering(a, b) == Ordering::Less,
        bits_ordering(b, a) == Ordering::Greater,
{
    lemma_first_difference_lt(a, b, k);
    lemma_bits_trichotomy(a, b);
}

/// Sequences that hold the same bits compare equal, in either order.
pub proof fn law_equal_bits_compare_equal(a: Seq<bool>, b: Seq<bool>)
    requires
        a.len() == b.len(),
        forall|i: int| 0 <= i < a.len() ==> a[i] == b[i],
    ensures
        bits_ordering(a, b) == Ordering::Equal,
        bits_ordering(b, a) == Ordering::Equal,
{
    assert(a =~= b);
    lemma_bits_trichotomy(a, b);
}

impl<C: Cursor, T: Bits> BitSlice<C, T> {
    /// Whether both slices hold the same bits, whatever their storage.
    pub fn eq<C2: Cursor, T2: Bits>(&self, rhs: &BitSlice<C2, T2>) -> (r: bool)
        ensures
            r == (self@ == rhs@),
    {
        let n = self.len();
        if n != rhs.len() {
            return false;
        }
        let mut i: usize = 0;
        while i < n
            invariant
                n == self@.len(),
                n == rhs@.len(),
                i <= n,
                forall|j: int| 0 <= j < i ==> #[trigger] self@[j] == rhs@[j],
            decreases n - i,
        {
            if self.get(i) != rhs.get(i) {
                assert(self@[i as int] != rhs@[i as int]);
                return false;
            }
            i = i + 1;
        }
        assert(self@ =~= rhs@);
        true
    }

    /// The sign of the comparison of the two slices' bits: -1 when `self`
    /// sorts first, 1 when `rhs` does, 0 when they are equal.
    pub fn compare_bits<C2: Cursor, T2: Bits>(&self, rhs: &BitSlice<C2, T2>) -> (r: i8)
        ensures
            r == -1 <==> bits_lt(self@, rhs@),
            r == 1 <==> bits_lt(rhs@, self@),
            r == 0 <==> self@ == rhs@,
    {
        let ghost a = self@;
        let ghost b = rhs@;
        let n = self.len();
        let m = rhs.len();
        let k = if n < m {
            n
        } else {
            m
        };
        let mut i: usize = 0;
        proof {
            assert(a.skip(0) =~= a);
            assert(b.skip(0) =~= b);
            lemma_bits_trichotomy(a, b);
        }
        while i < k
            invariant
                n == a.len(),
                m == b.len(),
                k <= n,
                k <= m,
                i <= k,
                a == self@,
                b == rhs@,
                forall|j: int| 0 <= j < i ==> #[trigger] a[j] == b[j],
                bits_lt(a, b) == bits_lt(a.skip(i as int), b.skip(i as int)),
                bits_lt(b, a) == bits_lt(b.skip(i as int), a.skip(i as int)),
            decreases k - i,
        {
            let x = self.get(i);
            let y = rhs.get(i);
            proof {
                let sa = a.skip(i as int);
                let sb = b.skip(i as int);
                assert(sa.drop_first() =~= a.skip(i + 1));
                assert(sb.drop_first() =~= b.skip(i + 1));
                assert(sa[0] == x && sb[0] == y);
            }
            if x != y {
                proof {
                    lemma_bits_trichotomy(a, b);
                }
                if y {
                    return -1;
                } else {
                    return 1;
                }
            }
            i = i + 1;
        }
        proof {
            lemma_bits_trichotomy(a, b);
            let sa = a.skip(i as int);
            let sb = b.skip(i as int);
            if n == m {
                assert(a =~= b);
            }
        }
        if n < m {
            -1
        } else if n > m {
            1
        } else {
            0
        }
    }

    /// The lexicographic ordering of the two slices' bits.
    pub fn partial_cmp<C2: Cursor, T2: Bits>(&self, rhs: &BitSlice<C2, T2>) -> (r: Option<Ordering>)
        ensures
            r == Some(bits_ordering(self@, rhs@)),
    {
        Some(self.cmp(rhs))
    }

    /// The lexicographic ordering of the two slices' bits.
    pub fn cmp<C2: Cursor, T2: Bits>(&self, rhs: &BitSlice<C2, T2>) -> (r: Ordering)
        ensures
            r == bits_ordering(self@, rhs@),
    {
        let s = self.compare_bits(rhs);
        proof {
            lemma_bits_trichotomy(self@, rhs@);
        }
        if s < 0 {
            Ordering::Less
        } else if s == 0 {
            Ordering::Equal
        } else {
            Ordering::Greater
        }
    }
}

} // verus!
