//! Bit orderings: which electrical bit of an element holds each semantic index.

use vstd::prelude::*;

verus! {

/// Maps a semantic index within one storage element (`place`) to the
/// electrical position of the bit that holds it.
pub trait Cursor {
    /// The electrical position that semantic index `place` maps to in an
    /// element `width` bits wide.
    spec fn spec_at(place: nat, width: nat) -> nat;

    /// The mapping stays inside the element and sends distinct places to
    /// distinct positions.
    proof fn lemma_at(place: nat, other: nat, width: nat)
        requires
            place < width,
            other < width,
        ensures
            Self::spec_at(place, width) < width,
            place != other ==> Self::spec_at(place, width) != Self::spec_at(other, width),
    ;

    /// The name of the ordering.
    spec fn name() -> Seq<char>;

    /// The name of the ordering.
    fn typename() -> (r: &'static str)
        ensures
            r@ == Self::name(),
    ;

    /// Computes the electrical position of semantic index `place`.
    fn at(place: u8, width: u8) -> (pos: u8)
        requires
            place < width,
        ensures
            pos == Self::spec_at(place as nat, width as nat),
            pos < width,
    ;
}

/// Big-endian bit order: semantic index 0 is the most significant bit.
pub struct BigEndian;

/// Little-endian bit order: semantic index 0 is the least significant bit.
pub struct LittleEndian;

impl Cursor for BigEndian {
    open spec fn name() -> Seq<char> {
        "BigEndian"@
    }

    fn typename() -> (r: &'static str) {
        "BigEndian"
    }

    open spec fn spec_at(place: nat, width: nat) -> nat {
        (width - 1 - place) as nat
    }

    proof fn lemma_at(place: nat, other: nat, width: nat) {
    }

    fn at(place: u8, width: u8) -> (pos: u8) {
        width - 1 - place
    }
}

impl Cursor for LittleEndian {
    open spec fn name() -> Seq<char> {
        "LittleEndian"@
    }

    fn typename() -> (r: &'static str) {
        "LittleEndian"
    }

    open spec fn spec_at(place: nat, width: nat) -> nat {
        place
    }

    proof fn lemma_at(place: nat, other: nat, width: nat) {
    }

    fn at(place: u8, width: u8) -> (pos: u8) {
        place
    }
}

/// Each bit order is named by its type name, and maps semantic index 0 to
/// the most significant bit (big-endian) or the least significant bit
/// (little-endian).
pub proof fn law_cursor_names_and_ends(width: nat)
    requires
        width >= 1,
    ensures
        BigEndian::name() == seq!['B', 'i', 'g', 'E', 'n', 'd', 'i', 'a', 'n'],
        LittleEndian::name() == seq!['L', 'i', 't', 't', 'l', 'e', 'E', 'n', 'd', 'i', 'a', 'n'],
        BigEndian::spec_at(0, width) == width - 1,
        LittleEndian::spec_at(0, width) == 0,
{
    reveal_strlit("BigEndian");
    reveal_strlit("LittleEndian");
    assert(BigEndian::name() =~= seq!['B', 'i', 'g', 'E', 'n', 'd', 'i', 'a', 'n']);
    assert(LittleEndian::name() =~= seq!['L', 'i', 't', 't', 'l', 'e', 'E', 'n', 'd', 'i', 'a', 'n']);
}

} // verus!
