//! Bit sequences read as unsigned binary numbers, most significant bit first.

use vstd::prelude::*;
use vstd::arithmetic::power2::{pow2, lemma_pow2_unfold, lemma_pow2_pos, lemma_pow2_adds};

verus! {

/// The number a sequence of bits denotes, index 0 being the most significant bit.
pub open spec fn value(s: Seq<bool>) -> nat
    decreases s.len(),
{
    if s.len() == 0 {
        0
    } else {
        (if s[0] {
            pow2((s.len() - 1) as nat)
        } else {
            0
        }) + value(s.drop_first())
    }
}

/// `addend` placed against the least significant end of a sequence of `n`
/// bits: cut to its last `n` bits when longer, padded in front with zeros
/// when shorter.
pub open spec fn aligned(addend: Seq<bool>, n: nat) -> Seq<bool> {
    Seq::new(
        n,
        |i: int|
            {
                let j = i - n + addend.len();
                if j >= 0 {
                    addend[j]
                } else {
                    false
                }
            },
    )
}

/// Every bit inverted.
pub open spec fn inverted(s: Seq<bool>) -> Seq<bool> {
    Seq::new(s.len(), |i: int| !s[i])
}

/// `n` bits have a value below `2^n`.
pub proof fn lemma_value_bound(s: Seq<bool>)
    ensures
        value(s) < pow2(s.len()),
    decreases s.len(),
{
    if s.len() == 0 {
        assert(pow2(0) == 1) by {
            vstd::arithmetic::power2::lemma2_to64();
        }
    } else {
        lemma_value_bound(s.drop_first());
        lemma_pow2_unfold(s.len());
    }
}

/// Peeling the first bit off a suffix.
pub proof fn lemma_value_suffix(s: Seq<bool>, lo: int)
    requires
        0 < lo <= s.len(),
    ensures
        value(s.subrange(lo - 1, s.len() as int)) == (if s[lo - 1] {
            pow2((s.len() - lo) as nat)
        } else {
            0
        }) + value(s.subrange(lo, s.len() as int)),
{
    let t = s.subrange(lo - 1, s.len() as int);
    assert(t.drop_first() =~= s.subrange(lo, s.len() as int));
}

/// The value of a concatenation.
pub proof fn lemma_value_concat(x: Seq<bool>, y: Seq<bool>)
    ensures
        value(x + y) == value(x) * pow2(y.len()) + value(y),
    decreases x.len(),
{
    if x.len() == 0 {
        assert(x + y =~= y);
        assert(value(x) == 0);
        assert(0 * pow2(y.len()) == 0) by (nonlinear_arith);
    } else {
        let xy = x + y;
        assert(xy.drop_first() =~= x.drop_first() + y);
        lemma_value_concat(x.drop_first(), y);
        lemma_pow2_adds((x.len() - 1) as nat, y.len());
        assert(((x.len() - 1) as nat + y.len()) as nat == (xy.len() - 1) as nat);
        let top: int = if x[0] {
            pow2((x.len() - 1) as nat) as int
        } else {
            0
        };
        vstd::arithmetic::mul::lemma_mul_is_distributive_add_other_way(
            pow2(y.len()) as int,
            top,
            value(x.drop_first()) as int,
        );
        assert(top * pow2(y.len()) == (if xy[0] {
            pow2((xy.len() - 1) as nat) as int
        } else {
            0
        })) by (nonlinear_arith)
            requires
                x[0] == xy[0],
                top == (if x[0] {
                    pow2((x.len() - 1) as nat) as int
                } else {
                    0
                }),
                pow2((xy.len() - 1) as nat) == pow2((x.len() - 1) as nat) * pow2(y.len()),
        ;
        assert(value(x) == top + value(x.drop_first()));
        assert(value(xy) == (if xy[0] {
            pow2((xy.len() - 1) as nat) as int
        } else {
            0
        }) + value(xy.drop_first()));
    }
}

/// A sequence of zeros is worth nothing.
pub proof fn lemma_value_zero(s: Seq<bool>)
    requires
        forall|i: int| 0 <= i < s.len() ==> !s[i],
    ensures
        value(s) == 0,
    decreases s.len(),
{
    if s.len() > 0 {
        lemma_value_zero(s.drop_first());
    }
}

/// A one followed by zeros is worth `2^(n-1)`.
pub proof fn lemma_value_top(s: Seq<bool>)
    requires
        s.len() > 0,
        s[0],
        forall|i: int| 1 <= i < s.len() ==> !s[i],
    ensures
        value(s) == pow2((s.len() - 1) as nat),
{
    lemma_value_zero(s.drop_first());
}

/// Inverting every bit of `n` bits turns value `v` into `2^n - 1 - v`.
pub proof fn lemma_value_inverted(s: Seq<bool>)
    ensures
        value(inverted(s)) + value(s) + 1 == pow2(s.len()),
    decreases s.len(),
{
    if s.len() == 0 {
        vstd::arithmetic::power2::lemma2_to64();
    } else {
        assert(inverted(s).drop_first() =~= inverted(s.drop_first()));
        lemma_value_inverted(s.drop_first());
        lemma_pow2_unfold(s.len());
    }
}

/// An addend placed against `n` bits is worth its value modulo `2^n`.
pub proof fn lemma_value_aligned(addend: Seq<bool>, n: nat)
    ensures
        value(aligned(addend, n)) == value(addend) % pow2(n),
{
    let m = addend.len();
    lemma_pow2_pos(n);
    if m <= n {
        let zeros = Seq::new((n - m) as nat, |i: int| false);
        assert(aligned(addend, n) =~= zeros + addend);
        lemma_value_concat(zeros, addend);
        lemma_value_zero(zeros);
        assert(0 * pow2(m) == 0) by (nonlinear_arith);
        lemma_value_bound(addend);
        if m < n {
            vstd::arithmetic::power2::lemma_pow2_strictly_increases(m, n);
        }
        vstd::arithmetic::div_mod::lemma_small_mod(value(addend), pow2(n));
    } else {
        let pre = addend.subrange(0, m - n);
        let low = addend.subrange(m - n, m as int);
        assert(addend =~= pre + low);
        assert(aligned(addend, n) =~= low);
        lemma_value_concat(pre, low);
        lemma_value_bound(low);
        vstd::arithmetic::div_mod::lemma_fundamental_div_mod_converse(
            value(addend) as int,
            pow2(n) as int,
            value(pre) as int,
            value(low) as int,
        );
    }
}

} // verus!
