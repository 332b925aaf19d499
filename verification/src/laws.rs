//! Properties of the bit operations that hold across calls.

use vstd::prelude::*;
use vstd::arithmetic::power2::{pow2, lemma_pow2_pos, lemma_pow2_unfold};
use crate::num::{value, inverted, lemma_value_bound, lemma_value_concat, lemma_value_zero, lemma_value_inverted};
use crate::ops::{shifted_front, shifted_back, zip_with, BitOp};

verus! {

/// Inverting every bit twice gives back the original bits.
pub proof fn law_not_involutive(s: Seq<bool>)
    ensures
        inverted(inverted(s)) == s,
{
    assert(inverted(inverted(s)) =~= s);
}

/// Two bit sequences of the same length that denote the same number are the
/// same sequence.
pub proof fn law_value_injective(a: Seq<bool>, b: Seq<bool>)
    requires
        a.len() == b.len(),
        value(a) == value(b),
    ensures
        a == b,
    decreases a.len(),
{
    if a.len() > 0 {
        lemma_value_bound(a.drop_first());
        lemma_value_bound(b.drop_first());
        assert(a[0] == b[0]);
        law_value_injective(a.drop_first(), b.drop_first());
        assert forall|i: int| 0 <= i < a.len() implies a[i] == b[i] by {
            if i > 0 {
                assert(a[i] == a.drop_first()[i - 1]);
                assert(b[i] == b.drop_first()[i - 1]);
            }
        }
        assert(a =~= b);
    } else {
        assert(a =~= b);
    }
}

/// Two's-complement negation, applied twice, gives back the original bits:
/// if `b` is the negation of `a` and `c` the negation of `b`, all of the same
/// length, then `c` is `a`.
pub proof fn law_neg_involutive(a: Seq<bool>, b: Seq<bool>, c: Seq<bool>)
    requires
        a.len() == b.len(),
        b.len() == c.len(),
        value(b) == (pow2(a.len()) - value(a)) % (pow2(a.len()) as int),
        value(c) == (pow2(b.len()) - value(b)) % (pow2(b.len()) as int),
    ensures
        c == a,
{
    let p = pow2(a.len()) as int;
    let v = value(a) as int;
    lemma_value_bound(a);
    lemma_pow2_pos(a.len());
    if v == 0 {
        vstd::arithmetic::div_mod::lemma_fundamental_div_mod_converse(p, p, 1, 0);
        assert(value(b) == 0);
        assert(value(c) == 0);
    } else {
        vstd::arithmetic::div_mod::lemma_small_mod((p - v) as nat, p as nat);
        assert(value(b) == p - v);
        vstd::arithmetic::div_mod::lemma_small_mod(v as nat, p as nat);
        assert(value(c) == v);
    }
    law_value_injective(a, c);
}

/// A number plus its two's-complement negation wraps to zero.
pub proof fn law_add_neg_is_zero(a: Seq<bool>, b: Seq<bool>)
    requires
        a.len() == b.len(),
        value(b) == (pow2(a.len()) - value(a)) % (pow2(a.len()) as int),
    ensures
        (value(a) + value(b)) % pow2(a.len()) == 0,
{
    let p = pow2(a.len()) as int;
    let v = value(a) as int;
    lemma_value_bound(a);
    lemma_pow2_pos(a.len());
    if v == 0 {
        vstd::arithmetic::div_mod::lemma_fundamental_div_mod_converse(p, p, 1, 0);
        vstd::arithmetic::div_mod::lemma_fundamental_div_mod_converse(0, p, 0, 0);
    } else {
        vstd::arithmetic::div_mod::lemma_small_mod((p - v) as nat, p as nat);
        vstd::arithmetic::div_mod::lemma_fundamental_div_mod_converse(p, p, 1, 0);
    }
}

/// Wrapping addition of two sequences of the same length does not depend on
/// the order of the operands.
pub proof fn law_add_commutative(a: Seq<bool>, b: Seq<bool>, ab: Seq<bool>, ba: Seq<bool>)
    requires
        a.len() == b.len(),
        ab.len() == a.len(),
        ba.len() == b.len(),
        value(ab) == (value(a) + value(b)) % pow2(a.len()),
        value(ba) == (value(b) + value(a)) % pow2(b.len()),
    ensures
        ab == ba,
{
    law_value_injective(ab, ba);
}

/// Shifting towards the front by `a` and then by `b` is shifting by `a + b`.
pub proof fn law_shl_compose(s: Seq<bool>, a: nat, b: nat)
    ensures
        shifted_front(shifted_front(s, a), b) == shifted_front(s, a + b),
{
    assert(shifted_front(shifted_front(s, a), b) =~= shifted_front(s, a + b));
}

/// Shifting towards the back by `a` and then by `b` is shifting by `a + b`.
pub proof fn law_shr_compose(s: Seq<bool>, a: nat, b: nat)
    ensures
        shifted_back(shifted_back(s, a), b) == shifted_back(s, a + b),
{
    assert(shifted_back(shifted_back(s, a), b) =~= shifted_back(s, a + b));
}

/// Shifting towards the front and then back by the same amount keeps the
/// bits at index `shamt` and later and clears the others.
pub proof fn law_shl_then_shr(s: Seq<bool>, shamt: nat)
    ensures
        shifted_back(shifted_front(s, shamt), shamt) == Seq::new(
            s.len(),
            |i: int|
                if shamt <= i {
                    s[i]
                } else {
                    false
                },
        ),
{
    assert(shifted_back(shifted_front(s, shamt), shamt) =~= Seq::new(
        s.len(),
        |i: int|
            if shamt <= i {
                s[i]
            } else {
                false
            },
    ));
}

/// Shifting towards the front by `k` moves bit `i + k` to place `i` and
/// leaves zeros in the last `k` places (every place when `k` reaches the
/// length).
pub proof fn law_shl_moves_and_zero_fills(s: Seq<bool>, k: nat)
    ensures
        shifted_front(s, k).len() == s.len(),
        forall|i: int| 0 <= i && i + k < s.len() ==> #[trigger] shifted_front(s, k)[i] == s[i + k],
        forall|i: int| 0 <= i < s.len() && i + k >= s.len() ==> !#[trigger] shifted_front(s, k)[i],
{
}

/// Shifting towards the back by `k` moves bit `i - k` to place `i` and
/// leaves zeros in the first `k` places (every place when `k` reaches the
/// length).
pub proof fn law_shr_moves_and_zero_fills(s: Seq<bool>, k: nat)
    ensures
        shifted_back(s, k).len() == s.len(),
        forall|i: int| k <= i < s.len() ==> #[trigger] shifted_back(s, k)[i] == s[i - k],
        forall|i: int| 0 <= i < s.len() && i < k ==> !#[trigger] shifted_back(s, k)[i],
{
}

/// Read as a number, shifting `n` bits towards the front by `k <= n`
/// multiplies by `2^k` and drops what overflows `n` bits.
pub proof fn law_shl_value(s: Seq<bool>, k: nat)
    requires
        k <= s.len(),
    ensures
        value(shifted_front(s, k)) == (value(s) * pow2(k)) % pow2(s.len()),
{
    let n = s.len();
    let hi = s.subrange(0, k as int);
    let lo = s.subrange(k as int, n as int);
    let z = Seq::new(k, |i: int| false);
    assert(shifted_front(s, k) =~= lo + z);
    assert(s =~= hi + lo);
    lemma_value_concat(lo, z);
    lemma_value_concat(hi, lo);
    lemma_value_zero(z);
    lemma_value_bound(lo);
    lemma_pow2_pos(k);
    lemma_pow2_pos(n);
    vstd::arithmetic::power2::lemma_pow2_adds((n - k) as nat, k);
    assert(((n - k) as nat + k) as nat == n);
    let vh = value(hi) as int;
    let vl = value(lo) as int;
    let pk = pow2(k) as int;
    let pnk = pow2((n - k) as nat) as int;
    assert(value(s) * pk == vh * pow2(n) + vl * pk) by (nonlinear_arith)
        requires
            value(s) == vh * pnk + vl,
            pow2(n) == pnk * pk,
    ;
    assert(vl * pk < pow2(n)) by (nonlinear_arith)
        requires
            vl < pnk,
            pk > 0,
            pow2(n) == pnk * pk,
    ;
    assert(0 <= vl * pk) by (nonlinear_arith)
        requires
            vl >= 0,
            pk > 0,
    ;
    vstd::arithmetic::div_mod::lemma_fundamental_div_mod_converse(
        value(s) * pk,
        pow2(n) as int,
        vh,
        vl * pk,
    );
}

/// Read as a number, shifting towards the back by `k <= n` divides by `2^k`,
/// rounding down.
pub proof fn law_shr_value(s: Seq<bool>, k: nat)
    requires
        k <= s.len(),
    ensures
        value(shifted_back(s, k)) == value(s) / pow2(k),
{
    let n = s.len();
    let hi = s.subrange(0, n - k);
    let lo = s.subrange(n - k, n as int);
    let z = Seq::new(k, |i: int| false);
    assert(shifted_back(s, k) =~= z + hi);
    assert(s =~= hi + lo);
    lemma_value_concat(z, hi);
    lemma_value_concat(hi, lo);
    lemma_value_zero(z);
    assert(0 * pow2(hi.len()) == 0) by (nonlinear_arith);
    lemma_value_bound(lo);
    lemma_pow2_pos(k);
    vstd::arithmetic::div_mod::lemma_fundamental_div_mod_converse(
        value(s) as int,
        pow2(k) as int,
        value(hi) as int,
        value(lo) as int,
    );
}

/// Read as a number, inverting every bit of `n` bits gives `2^n - 1` minus
/// the value, and every bit is the opposite of the bit it replaced.
pub proof fn law_not_value(s: Seq<bool>)
    ensures
        inverted(s).len() == s.len(),
        forall|i: int| 0 <= i < s.len() ==> #[trigger] inverted(s)[i] != s[i],
        value(inverted(s)) == pow2(s.len()) - 1 - value(s),
{
    lemma_value_inverted(s);
}

/// The bitwise operations combine bit `i` with bit `i` of the right operand,
/// as AND, OR and XOR do; bits past the end of the right operand are kept.
pub proof fn law_bitwise_index_by_index(bits: Seq<bool>, rhs: Seq<bool>)
    ensures
        zip_with(BitOp::And, bits, rhs).len() == bits.len(),
        zip_with(BitOp::Or, bits, rhs).len() == bits.len(),
        zip_with(BitOp::Xor, bits, rhs).len() == bits.len(),
        forall|i: int|
            0 <= i < bits.len() && i < rhs.len() ==> {
                &&& #[trigger] zip_with(BitOp::And, bits, rhs)[i] == (bits[i] && rhs[i])
                &&& zip_with(BitOp::Or, bits, rhs)[i] == (bits[i] || rhs[i])
                &&& zip_with(BitOp::Xor, bits, rhs)[i] == (bits[i] != rhs[i])
            },
        forall|i: int|
            0 <= i < bits.len() && rhs.len() <= i ==> {
                &&& #[trigger] zip_with(BitOp::And, bits, rhs)[i] == bits[i]
                &&& zip_with(BitOp::Or, bits, rhs)[i] == bits[i]
                &&& zip_with(BitOp::Xor, bits, rhs)[i] == bits[i]
            },
{
}

} // verus!
