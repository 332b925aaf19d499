//! Storage elements: the unsigned integers that hold bits.

use vstd::prelude::*;

verus! {

/// An unsigned integer used as the storage unit of a bit slice.
///
/// Bits inside an element are numbered by their electrical position:
/// position 0 is the least significant bit.
pub trait Bits: Sized + Copy {
    /// Number of bits in one element.
    spec fn width() -> nat;

    /// The bit at electrical position `pos`.
    spec fn bit(self, pos: nat) -> bool;

    proof fn lemma_width()
        ensures
            1 <= Self::width() <= 64,
    ;

    /// The name of the element type.
    spec fn name() -> Seq<char>;

    /// The name of the element type.
    fn typename() -> (r: &'static str)
        ensures
            r@ == Self::name(),
    ;

    /// Number of bits in one element.
    fn size() -> (r: u8)
        ensures
            r == Self::width(),
    ;

    /// The element with every bit cleared.
    fn zero() -> (r: Self)
        ensures
            forall|pos: nat| pos < Self::width() ==> !#[trigger] r.bit(pos),
    ;

    /// Reads the bit at electrical position `pos`.
    fn get_at(&self, pos: u8) -> (r: bool)
        requires
            pos < Self::width(),
        ensures
            r == self.bit(pos as nat),
    ;

    /// Writes the bit at electrical position `pos`, leaving every other bit unchanged.
    fn set_at(&mut self, pos: u8, value: bool)
        requires
            pos < Self::width(),
        ensures
            final(self).bit(pos as nat) == value,
            forall|j: nat| j < Self::width() && j != pos ==> #[trigger] final(self).bit(j) == old(self).bit(j),
    ;
}

impl Bits for u8 {
    open spec fn name() -> Seq<char> {
        "u8"@
    }

    fn typename() -> (r: &'static str) {
        "u8"
    }

    open spec fn width() -> nat {
        8
    }

    open spec fn bit(self, pos: nat) -> bool {
        (self >> (pos as u8)) & 1 == 1
    }

    proof fn lemma_width() {
    }

    fn size() -> (r: u8) {
        8
    }

    fn zero() -> (r: Self) {
        assert forall|pos: nat| pos < 8 implies !#[trigger] 0u8.bit(pos) by {
            let k = pos as u8;
            assert((0u8 >> k) & 1 != 1) by (bit_vector);
        }
        0
    }

    fn get_at(&self, pos: u8) -> (r: bool) {
        (*self >> pos) & 1 == 1
    }

    fn set_at(&mut self, pos: u8, value: bool) {
        let v = *self;
        if value {
            *self = v | (1u8 << pos);
            assert forall|j: nat| j < 8 implies #[trigger] (v | (1u8 << pos)).bit(j) == (j == pos || v.bit(j)) by {
                let k = j as u8;
                assert((((v | (1u8 << pos)) >> k) & 1 == 1) == (k == pos || (v >> k) & 1 == 1)) by (bit_vector)
                    requires
                        pos < 8u8,
                        k < 8u8,
                ;
            }
        } else {
            *self = v & !(1u8 << pos);
            assert forall|j: nat| j < 8 implies #[trigger] (v & !(1u8 << pos)).bit(j) == (j != pos && v.bit(j)) by {
                let k = j as u8;
                assert((((v & !(1u8 << pos)) >> k) & 1 == 1) == (k != pos && (v >> k) & 1 == 1)) by (bit_vector)
                    requires
                        pos < 8u8,
                        k < 8u8,
                ;
            }
        }
    }
}

impl Bits for u16 {
    open spec fn name() -> Seq<char> {
        "u16"@
    }

    fn typename() -> (r: &'static str) {
        "u16"
    }

    open spec fn width() -> nat {
        16
    }

    open spec fn bit(self, pos: nat) -> bool {
        (self >> (pos as u16)) & 1 == 1
    }

    proof fn lemma_width() {
    }

    fn size() -> (r: u8) {
        16
    }

    fn zero() -> (r: Self) {
        assert forall|pos: nat| pos < 16 implies !#[trigger] 0u16.bit(pos) by {
            let k = pos as u16;
            assert((0u16 >> k) & 1 != 1) by (bit_vector);
        }
        0
    }

    fn get_at(&self, pos: u8) -> (r: bool) {
        (*self >> (pos as u16)) & 1 == 1
    }

    fn set_at(&mut self, pos: u8, value: bool) {
        let v = *self;
        if value {
            *self = v | (1u16 << (pos as u16));
            assert forall|j: nat| j < 16 implies #[trigger] (v | (1u16 << (pos as u16))).bit(j) == (j == pos || v.bit(j)) by {
                let k = j as u16;
                assert((((v | (1u16 << (pos as u16))) >> k) & 1 == 1) == (k == pos as u16 || (v >> k) & 1 == 1)) by (bit_vector)
                    requires
                        (pos as u16) < 16u16,
                        k < 16u16,
                ;
            }
        } else {
            *self = v & !(1u16 << (pos as u16));
            assert forall|j: nat| j < 16 implies #[trigger] (v & !(1u16 << (pos as u16))).bit(j) == (j != pos && v.bit(j)) by {
                let k = j as u16;
                assert((((v & !(1u16 << (pos as u16))) >> k) & 1 == 1) == (k != pos as u16 && (v >> k) & 1 == 1)) by (bit_vector)
                    requires
                        (pos as u16) < 16u16,
                        k < 16u16,
                ;
            }
        }
    }
}

impl Bits for u32 {
    open spec fn name() -> Seq<char> {
        "u32"@
    }

    fn typename() -> (r: &'static str) {
        "u32"
    }

    open spec fn width() -> nat {
        32
    }

    open spec fn bit(self, pos: nat) -> bool {
        (self >> (pos as u32)) & 1 == 1
    }

    proof fn lemma_width() {
    }

    fn size() -> (r: u8) {
        32
    }

    fn zero() -> (r: Self) {
        assert forall|pos: nat| pos < 32 implies !#[trigger] 0u32.bit(pos) by {
            let k = pos as u32;
            assert((0u32 >> k) & 1 != 1) by (bit_vector);
        }
        0
    }

    fn get_at(&self, pos: u8) -> (r: bool) {
        (*self >> (pos as u32)) & 1 == 1
    }

    fn set_at(&mut self, pos: u8, value: bool) {
        let v = *self;
        if value {
            *self = v | (1u32 << (pos as u32));
            assert forall|j: nat| j < 32 implies #[trigger] (v | (1u32 << (pos as u32))).bit(j) == (j == pos || v.bit(j)) by {
                let k = j as u32;
                assert((((v | (1u32 << (pos as u32))) >> k) & 1 == 1) == (k == pos as u32 || (v >> k) & 1 == 1)) by (bit_vector)
                    requires
                        (pos as u32) < 32u32,
                        k < 32u32,
                ;
            }
        } else {
            *self = v & !(1u32 << (pos as u32));
            assert forall|j: nat| j < 32 implies #[trigger] (v & !(1u32 << (pos as u32))).bit(j) == (j != pos && v.bit(j)) by {
                let k = j as u32;
                assert((((v & !(1u32 << (pos as u32))) >> k) & 1 == 1) == (k != pos as u32 && (v >> k) & 1 == 1)) by (bit_vector)
                    requires
                        (pos as u32) < 32u32,
                        k < 32u32,
                ;
            }
        }
    }
}

impl Bits for u64 {
    open spec fn name() -> Seq<char> {
        "u64"@
    }

    fn typename() -> (r: &'static str) {
        "u64"
    }

    open spec fn width() -> nat {
        64
    }

    open spec fn bit(self, pos: nat) -> bool {
        (self >> (pos as u64)) & 1 == 1
    }

    proof fn lemma_width() {
    }

    fn size() -> (r: u8) {
        64
    }

    fn zero() -> (r: Self) {
        assert forall|pos: nat| pos < 64 implies !#[trigger] 0u64.bit(pos) by {
            let k = pos as u64;
            assert((0u64 >> k) & 1 != 1) by (bit_vector);
        }
        0
    }

    fn get_at(&self, pos: u8) -> (r: bool) {
        (*self >> (pos as u64)) & 1 == 1
    }

    fn set_at(&mut self, pos: u8, value: bool) {
        let v = *self;
        if value {
            *self = v | (1u64 << (pos as u64));
            assert forall|j: nat| j < 64 implies #[trigger] (v | (1u64 << (pos as u64))).bit(j) == (j == pos || v.bit(j)) by {
                let k = j as u64;
                assert((((v | (1u64 << (pos as u64))) >> k) & 1 == 1) == (k == pos as u64 || (v >> k) & 1 == 1)) by (bit_vector)
                    requires
                        (pos as u64) < 64u64,
                        k < 64u64,
                ;
            }
        } else {
            *self = v & !(1u64 << (pos as u64));
            assert forall|j: nat| j < 64 implies #[trigger] (v & !(1u64 << (pos as u64))).bit(j) == (j != pos && v.bit(j)) by {
                let k = j as u64;
                assert((((v & !(1u64 << (pos as u64))) >> k) & 1 == 1) == (k != pos as u64 && (v >> k) & 1 == 1)) by (bit_vector)
                    requires
                        (pos as u64) < 64u64,
                        k < 64u64,
                ;
            }
        }
    }
}

/// Each storage type is named by its Rust type name and holds as many bits
/// as that name says.
pub proof fn law_element_names()
    ensures
        <u8 as Bits>::name() == seq!['u', '8'],
        <u16 as Bits>::name() == seq!['u', '1', '6'],
        <u32 as Bits>::name() == seq!['u', '3', '2'],
        <u64 as Bits>::name() == seq!['u', '6', '4'],
        <u8 as Bits>::width() == 8,
        <u16 as Bits>::width() == 16,
        <u32 as Bits>::width() == 32,
        <u64 as Bits>::width() == 64,
{
    reveal_strlit("u8");
    reveal_strlit("u16");
    reveal_strlit("u32");
    reveal_strlit("u64");
    assert(<u8 as Bits>::name() =~= seq!['u', '8']);
    assert(<u16 as Bits>::name() =~= seq!['u', '1', '6']);
    assert(<u32 as Bits>::name() =~= seq!['u', '3', '2']);
    assert(<u64 as Bits>::name() =~= seq!['u', '6', '4']);
}

} // verus!
