//! Text renderings of bit slices and boxes.

use vstd::prelude::*;
use crate::bits::Bits;
use crate::boxed::BitBox;
use crate::cursor::Cursor;
use crate::slice::BitSlice;
use vstd::string::StringExecFns;

verus! {

/// The character that shows a bit.
pub open spec fn digit(b: bool) -> char {
    if b {
        '1'
    } else {
        '0'
    }
}

/// The text placed before bit `i`: a comma and a space where a new storage
/// element begins, nothing otherwise.
pub open spec fn separator(head: nat, width: nat, i: nat) -> Seq<char> {
    if i > 0 && (head + i) % width == 0 {
        seq![',', ' ']
    } else {
        seq![]
    }
}

/// The first `k` bits, each storage element's bits run together and the
/// elements separated by a comma and a space.
pub open spec fn rendered(bits: Seq<bool>, head: nat, width: nat, k: nat) -> Seq<char>
    decreases k,
{
    if k == 0 || k > bits.len() {
        seq![]
    } else {
        rendered(bits, head, width, (k - 1) as nat) + separator(head, width, (k - 1) as nat)
            + seq![digit(bits[k - 1])]
    }
}

/// The bits in square brackets, grouped by storage element.
pub open spec fn display_text(bits: Seq<bool>, head: nat, width: nat) -> Seq<char> {
    seq!['['] + rendered(bits, head, width, bits.len()) + seq![']']
}

/// Going from offset `x - 1` to offset `x` enters a new element exactly when
/// `x` is a multiple of the width.
proof fn lemma_div_step(x: int, w: int)
    requires
        x >= 1,
        w >= 1,
    ensures
        x / w == (x - 1) / w + (if x % w == 0 {
            1int
        } else {
            0int
        }),
{
    let q = (x - 1) / w;
    let r = (x - 1) % w;
    vstd::arithmetic::div_mod::lemma_fundamental_div_mod(x - 1, w);
    vstd::arithmetic::div_mod::lemma_mod_bound(x - 1, w);
    vstd::arithmetic::mul::lemma_mul_is_commutative(w, q);
    if r == w - 1 {
        assert(x == (q + 1) * w + 0) by (nonlinear_arith)
            requires
                x - 1 == q * w + r,
                r == w - 1,
        ;
        vstd::arithmetic::div_mod::lemma_fundamental_div_mod_converse(x, w, q + 1, 0);
    } else {
        vstd::arithmetic::div_mod::lemma_fundamental_div_mod_converse(x, w, q, r + 1);
    }
}

/// Where each digit and each separator of the first `k` bits stands.
proof fn lemma_rendered_layout(bits: Seq<bool>, head: nat, width: nat, k: nat)
    requires
        head < width,
        k <= bits.len(),
    ensures
        k == 0 ==> rendered(bits, head, width, k).len() == 0,
        k >= 1 ==> rendered(bits, head, width, k).len() == k + 2 * ((head + k - 1) / (width as int)),
        forall|i: int|
            0 <= i < k ==> #[trigger] rendered(bits, head, width, k)[i + 2 * ((head + i) / (
            width as int))] == (if bits[i] {
                '1'
            } else {
                '0'
            }),
        forall|i: int|
            0 < i < k && #[trigger] ((head + i) / (width as int)) != (head + i - 1) / (width as int)
                ==> rendered(bits, head, width, k)[i + 2 * ((head + i) / (width as int)) - 2] == ','
                && rendered(bits, head, width, k)[i + 2 * ((head + i) / (width as int)) - 1] == ' ',
    decreases k,
{
    let w = width as int;
    let h = head as int;
    if k > 0 {
        let j = (k - 1) as nat;
        lemma_rendered_layout(bits, head, width, j);
        let prev = rendered(bits, head, width, j);
        let sep = separator(head, width, j);
        let cur = rendered(bits, head, width, k);
        assert(cur == prev + sep + seq![digit(bits[j as int])]);
        vstd::arithmetic::div_mod::lemma_fundamental_div_mod_converse(h, w, 0, h);
        if j == 0 {
            assert(sep.len() == 0);
        } else {
            lemma_div_step(h + j, w);
        }
        assert(cur.len() == k + 2 * ((h + k - 1) / w));
        assert forall|i: int| 0 <= i < k implies #[trigger] cur[i + 2 * ((h + i) / w)] == (if bits[i] {
            '1'
        } else {
            '0'
        }) by {
            if i < j {
                vstd::arithmetic::div_mod::lemma_div_is_ordered(h + i, h + j - 1, w);
                assert(cur[i + 2 * ((h + i) / w)] == prev[i + 2 * ((h + i) / w)]);
            }
        }
        assert forall|i: int|
            0 < i < k && #[trigger] ((h + i) / w) != (h + i - 1) / w implies cur[i + 2 * ((h + i) / w) - 2]
            == ',' && cur[i + 2 * ((h + i) / w) - 1] == ' ' by {
            if i < j {
                vstd::arithmetic::div_mod::lemma_div_is_ordered(h + i, h + j - 1, w);
                assert(cur[i + 2 * ((h + i) / w) - 2] == prev[i + 2 * ((h + i) / w) - 2]);
                assert(cur[i + 2 * ((h + i) / w) - 1] == prev[i + 2 * ((h + i) / w) - 1]);
            } else {
                lemma_div_step(h + i, w);
            }
        }
    }
}

/// The text of `n` bits whose first bit sits at index `head` of an element
/// `width` bits wide: an opening bracket, each bit as `1` or `0`, a comma
/// and a space wherever the next bit starts a new storage element, and a
/// closing bracket. Bit `i` stands at `1 + i + 2 * ((head + i) / width)`, so
/// bits spanning `e` elements make `e` groups and `e - 1` separators.
pub proof fn law_display_layout(bits: Seq<bool>, head: nat, width: nat)
    requires
        head < width,
    ensures
        display_text(bits, head, width)[0] == '[',
        display_text(bits, head, width).last() == ']',
        bits.len() == 0 ==> display_text(bits, head, width).len() == 2,
        bits.len() > 0 ==> display_text(bits, head, width).len() == bits.len() + 2 + 2 * ((head
            + bits.len() - 1) / (width as int)),
        forall|i: int|
            0 <= i < bits.len() ==> #[trigger] display_text(bits, head, width)[1 + i + 2 * ((head
                + i) / (width as int))] == (if bits[i] {
                '1'
            } else {
                '0'
            }),
        forall|i: int|
            0 < i < bits.len() && #[trigger] ((head + i) / (width as int)) != (head + i - 1) / (
            width as int) ==> display_text(bits, head, width)[i + 2 * ((head + i) / (width as int))
                - 1] == ',' && display_text(bits, head, width)[i + 2 * ((head + i) / (width as int))]
                == ' ',
{
    let n = bits.len();
    let r = rendered(bits, head, width, n);
    lemma_rendered_layout(bits, head, width, n);
    let t = display_text(bits, head, width);
    assert(t == seq!['['] + r + seq![']']);
    assert forall|i: int| 0 <= i < n implies #[trigger] t[1 + i + 2 * ((head + i) / (width as int))]
        == (if bits[i] {
        '1'
    } else {
        '0'
    }) by {
        vstd::arithmetic::div_mod::lemma_div_is_ordered(head + i, head + n - 1, width as int);
        vstd::arithmetic::div_mod::lemma_div_pos_is_pos(head + i, width as int);
        assert(t[1 + i + 2 * ((head + i) / (width as int))] == r[i + 2 * ((head + i) / (width
            as int))]);
    }
    assert forall|i: int|
        0 < i < n && #[trigger] ((head + i) / (width as int)) != (head + i - 1) / (width as int)
            implies t[i + 2 * ((head + i) / (width as int)) - 1] == ',' && t[i + 2 * ((head + i) / (
        width as int))] == ' ' by {
        vstd::arithmetic::div_mod::lemma_div_is_ordered(head + i, head + n - 1, width as int);
        vstd::arithmetic::div_mod::lemma_div_pos_is_pos(head + i, width as int);
        vstd::arithmetic::div_mod::lemma_div_pos_is_pos(head + i - 1, width as int);
        vstd::arithmetic::div_mod::lemma_div_is_ordered(head + i - 1, head + i, width as int);
        assert(t[i + 2 * ((head + i) / (width as int)) - 1] == r[i + 2 * ((head + i) / (width
            as int)) - 2]);
        assert(t[i + 2 * ((head + i) / (width as int))] == r[i + 2 * ((head + i) / (width
            as int)) - 1]);
    }
}

impl<C: Cursor, T: Bits> BitSlice<C, T> {
    /// The bits in square brackets, those of each storage element run
    /// together and the elements separated by `", "`.
    pub fn to_string(&self) -> (r: String)
        ensures
            r@ == display_text(self@, self.region().head_idx(), T::width()),
    {
        proof {
            T::lemma_width();
        }
        let n = self.len();
        let head = self.as_bitptr().head() as usize;
        proof {
            self.lemma_region();
        }
        let w = T::size() as usize;
        proof {
            reveal_strlit("[");
            reveal_strlit("]");
            reveal_strlit(", ");
            reveal_strlit("0");
            reveal_strlit("1");
        }
        let mut out = String::new();
        out.append("[");
        let mut i: usize = 0;
        while i < n
            invariant
                n == self@.len(),
                i <= n,
                head == self.region().head_idx(),
                self.region().wf(),
                w == T::width(),
                w >= 1,
                out@ == seq!['['] + rendered(self@, head as nat, w as nat, i as nat),
            decreases n - i,
        {
            proof {
                self.lemma_region();
            }
            if i > 0 && (head + i) % w == 0 {
                out.append(", ");
            }
            let b = self.get(i);
            if b {
                out.append("1");
            } else {
                out.append("0");
            }
            proof {
                reveal_strlit(", ");
                reveal_strlit("0");
                reveal_strlit("1");
                let sep = separator(head as nat, w as nat, i as nat);
                assert(rendered(self@, head as nat, w as nat, (i + 1) as nat) == rendered(
                    self@,
                    head as nat,
                    w as nat,
                    i as nat,
                ) + sep + seq![digit(self@[i as int])]);
                assert(out@ =~= seq!['['] + rendered(self@, head as nat, w as nat, (i + 1) as nat));
            }
            i = i + 1;
        }
        out.append("]");
        assert(out@ =~= display_text(self@, head as nat, w as nat));
        out
    }
}

impl<C: Cursor, T: Bits> BitBox<C, T> {
    /// The bits in square brackets, grouped by storage element.
    pub fn to_string(&self) -> (r: String)
        ensures
            r@ == display_text(self@, self.head_idx(), T::width()),
    {
        self.as_bitslice().to_string()
    }

    /// The type of the box, with its bit order and element type, followed by
    /// its bits in square brackets, grouped by storage element.
    pub fn to_debug_string(&self) -> (r: String)
        ensures
            r@ == "BitBox<"@ + C::name() + ", "@ + T::name() + "> "@ + display_text(
                self@,
                self.head_idx(),
                T::width(),
            ),
    {
        let mut out = String::new();
        out.append("BitBox<");
        out.append(C::typename());
        out.append(", ");
        out.append(T::typename());
        out.append("> ");
        let body = self.to_string();
        out.append(body.as_str());
        assert(out@ =~= "BitBox<"@ + C::name() + ", "@ + T::name() + "> "@ + display_text(
            self@,
            self.head_idx(),
            T::width(),
        ));
        out
    }
}

} // verus!
