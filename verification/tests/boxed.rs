use lib::bits::Bits;
use lib::boxed::BitBox;
use lib::cursor::{BigEndian, LittleEndian};
use lib::ops::BitOp;
use lib::pointer::BitPtr;
use lib::slice::BitSlice;
use std::cmp::Ordering;
use std::ops::DerefMut;

fn bits_of<C: lib::cursor::Cursor, T: Bits>(b: &BitBox<C, T>) -> Vec<bool> {
    (0..b.len()).map(|i| b.index(i)).collect()
}

fn slice_bits<C: lib::cursor::Cursor, T: Bits>(s: &BitSlice<C, T>) -> Vec<bool> {
    (0..s.len()).map(|i| s.get(i)).collect()
}

/// A big-endian box over `u8` holding exactly `bits`.
fn boxed(bits: &[bool]) -> BitBox<BigEndian, u8> {
    let mut elems = vec![0u8; (bits.len() + 7) / 8];
    for (i, b) in bits.iter().enumerate() {
        if *b {
            elems[i / 8] |= 0x80 >> (i % 8);
        }
    }
    let whole: BitBox<BigEndian, u8> = BitBox::from_elements(&elems);
    let part = whole.index_to(bits.len());
    BitBox::new(&part)
}

#[test]
fn from_elements_reads_big_endian_bits() {
    let src: &[u8] = &[5, 10];
    let bv: BitBox = BitBox::from_elements(src);
    assert_eq!(bv.len(), 16);
    assert!(bv.index(5));
    assert!(bv.index(7));
    assert!(bv.index(12));
    assert!(bv.index(14));
    let set: Vec<usize> = (0..16).filter(|i| bv.index(*i)).collect();
    assert_eq!(set, vec![5, 7, 12, 14]);
}

#[test]
fn from_elements_reads_little_endian_bits() {
    let src: &[u8] = &[5, 10];
    let bv: BitBox<LittleEndian, u8> = BitBox::from_elements(src);
    let set: Vec<usize> = (0..16).filter(|i| bv.index(*i)).collect();
    assert_eq!(set, vec![0, 2, 9, 11]);
}

#[test]
fn wider_storage_elements() {
    let b16: BitBox<BigEndian, u16> = BitBox::from_elements(&[0x8001u16]);
    assert_eq!(b16.len(), 16);
    assert!(b16.index(0) && b16.index(15));
    assert_eq!((0..16).filter(|i| b16.index(*i)).count(), 2);
    let b32: BitBox<LittleEndian, u32> = BitBox::from_elements(&[1u32 << 31, 1]);
    assert_eq!(b32.len(), 64);
    assert!(b32.index(31) && b32.index(32));
    assert_eq!((0..64).filter(|i| b32.index(*i)).count(), 2);
    let b64: BitBox<BigEndian, u64> = BitBox::from_elements(&[3u64]);
    assert_eq!(b64.len(), 64);
    assert!(b64.index(62) && b64.index(63) && !b64.index(61));
}

#[test]
fn boxed_slice_round_trip() {
    let src: Box<[u8]> = Box::new([3, 6, 9, 12, 15]);
    let bv: BitBox = BitBox::from_boxed_slice(src);
    assert_eq!(bv.len(), 40);
    assert!(bv.index(6) && bv.index(7));
    let back: Box<[u8]> = bv.into_boxed_slice();
    assert_eq!(&*back, &[3, 6, 9, 12, 15]);
}

#[test]
fn empty_boxes() {
    let a: BitBox = BitBox::uninhabited();
    let b: BitBox = BitBox::default();
    let c: BitBox = BitBox::from_elements(&[]);
    let d: BitBox = BitBox::from_boxed_slice(Vec::new().into_boxed_slice());
    assert_eq!(a.len(), 0);
    assert_eq!(b.len(), 0);
    assert_eq!(c.len(), 0);
    assert_eq!(d.len(), 0);
    assert!(a == b && b == c && c == d);
    assert_eq!(a.as_elements().len(), 0);
    assert_eq!(b.into_boxed_slice().len(), 0);
}

#[test]
fn new_keeps_storage_and_bits() {
    let whole: BitBox = BitBox::from_elements(&[0b1010_1100, 0b0011_0101]);
    let part = whole.index_range(3, 13);
    let b = BitBox::new(&part);
    assert_eq!(b.len(), 10);
    assert_eq!(bits_of(&b), slice_bits(&part));
    assert_eq!(b.as_elements(), &[0b1010_1100, 0b0011_0101]);
    let ptr = b.bitptr();
    let (elems, elts, head, tail) = ptr.raw_parts();
    assert_eq!(elems, &[0b1010_1100, 0b0011_0101]);
    assert_eq!((elts, head, tail), (2, 3, 5));
    assert_eq!(
        bits_of(&b),
        vec![false, true, true, false, false, false, false, true, true, false]
    );
}

#[test]
fn clone_and_from_bitslice_copy_everything() {
    let whole: BitBox = BitBox::from_elements(&[0xF0, 0x0F]);
    let c = whole.clone();
    assert!(c == whole);
    assert_eq!(c.as_elements(), whole.as_elements());
    let f = BitBox::from_bitslice(whole.as_bitslice());
    assert!(f == *whole.as_bitslice());
    assert!(*whole.as_bitslice() == f);
    assert!(whole.as_bitslice().eq(f.as_bitslice()));
}

#[test]
fn raw_round_trip() {
    let whole: BitBox = BitBox::from_elements(&[0x5A]);
    let ptr = BitBox::into_raw(whole);
    assert_eq!(ptr.len(), 8);
    let again: BitBox = BitBox::from_raw(ptr);
    assert_eq!(again.as_elements(), &[0x5A]);
}

#[test]
fn bitptr_new_validates_empty_regions() {
    let p: BitPtr<u8> = BitPtr::new(vec![0xFF], 3, 3);
    assert_eq!(p.len(), 0);
    assert_eq!(p.elts(), 0);
    let q: BitPtr<u8> = BitPtr::new(vec![0xFF, 0x00], 3, 2);
    assert_eq!(q.len(), 7);
    assert_eq!((q.head(), q.tail()), (3, 2));
    assert_eq!(BitPtr::<u8>::max_elts(), (usize::MAX >> 3) / 8);
    assert_eq!(BitPtr::<u64>::max_elts(), (usize::MAX >> 3) / 64);
}

#[test]
fn leak_hands_out_the_bits() {
    let b = boxed(&[true, false, true]);
    let s: &'static mut BitSlice<BigEndian, u8> = BitBox::leak(b);
    assert_eq!(slice_bits(s), vec![true, false, true]);
    s.set(1, true);
    assert_eq!(slice_bits(s), vec![true, true, true]);
}

#[test]
fn as_mut_bitslice_writes_through() {
    let mut b = boxed(&[false, false, false, false]);
    b.as_mut_bitslice().set(2, true);
    assert_eq!(bits_of(&b), vec![false, false, true, false]);
    b.deref_mut().set(0, true);
    assert_eq!(bits_of(&b), vec![true, false, true, false]);
}

#[test]
fn addition_wraps() {
    let one = boxed(&[false, true]);
    let mut num = boxed(&[true, true, true, false]);
    num.add_assign(one.clone());
    assert_eq!(bits_of(&num), vec![true, true, true, true]);
    num.add_assign(one.clone());
    assert_eq!(bits_of(&num), vec![false, false, false, false]);
    let s = boxed(&[false, true, false, true]).add(boxed(&[false, true, true]));
    assert_eq!(bits_of(&s), vec![true, false, false, false]);
}

#[test]
fn addition_truncates_a_longer_addend() {
    let a = boxed(&[false, true]);
    let long = boxed(&[true, true, true]);
    let s = a.add(long);
    assert_eq!(bits_of(&s), vec![false, false]);
}

#[test]
fn negation_is_twos_complement() {
    assert_eq!(bits_of(&boxed(&[false, true, false, false]).neg()), vec![true, true, false, false]);
    assert_eq!(bits_of(&boxed(&[false, false, false, true]).neg()), vec![true, true, true, true]);
    assert_eq!(bits_of(&boxed(&[false, false, false]).neg()), vec![false, false, false]);
    assert_eq!(bits_of(&boxed(&[true, false, false]).neg()), vec![true, false, false]);
    assert_eq!(bits_of(&boxed(&[]).neg()), Vec::<bool>::new());
    let x = boxed(&[true, false, true, true, false]);
    let back = x.clone().neg().neg();
    assert!(back == x);
    let zero = x.clone().add(x.neg());
    assert!(bits_of(&zero).iter().all(|b| !b));
}

#[test]
fn inversion() {
    let b = boxed(&[true, false, false, true, true]);
    assert_eq!(bits_of(&b.clone().not()), vec![false, true, true, false, false]);
    assert!(b.clone().not().not() == b);
}

#[test]
fn shifts_move_bits_and_fill_with_zeros() {
    let b = boxed(&[true, false, true, true, false]);
    assert_eq!(bits_of(&b.clone().shl(2)), vec![true, true, false, false, false]);
    assert_eq!(bits_of(&b.clone().shr(2)), vec![false, false, true, false, true]);
    assert_eq!(bits_of(&b.clone().shl(0)), bits_of(&b));
    assert_eq!(bits_of(&b.clone().shr(5)), vec![false; 5]);
    assert_eq!(bits_of(&b.clone().shl(9)), vec![false; 5]);
    let mut c = b.clone();
    c.shl_assign(1);
    c.shl_assign(1);
    assert!(c == b.clone().shl(2));
    let mut d = b.clone();
    d.shr_assign(3);
    assert_eq!(bits_of(&d), vec![false, false, false, true, false]);
}

#[test]
fn bitwise_operations_stop_at_the_shorter_operand() {
    let b = boxed(&[true, true, false, false, true]);
    let rhs = [true, false, true, false];
    assert_eq!(bits_of(&b.clone().bitand(&rhs)), vec![true, false, false, false, true]);
    assert_eq!(bits_of(&b.clone().bitor(&rhs)), vec![true, true, true, false, true]);
    assert_eq!(bits_of(&b.clone().bitxor(&rhs)), vec![false, true, true, false, true]);
    let mut c = b.clone();
    c.bitxor_assign(&[true; 8]);
    assert_eq!(bits_of(&c), vec![false, false, true, true, false]);
    let mut s = b.as_bitslice().copy();
    s.zip_assign(&[false], BitOp::Or);
    assert_eq!(slice_bits(&s), bits_of(&b));
}

#[test]
fn ordering_is_lexicographic() {
    let a = boxed(&[false, true, true]);
    let b = boxed(&[true, false]);
    let c = boxed(&[false, true]);
    assert_eq!(a.cmp(&b), Ordering::Less);
    assert_eq!(b.cmp(&a), Ordering::Greater);
    assert_eq!(c.cmp(&a), Ordering::Less);
    assert_eq!(a.cmp(&a.clone()), Ordering::Equal);
    assert_eq!(a.partial_cmp(&b), Some(Ordering::Less));
    assert_eq!(a.partial_cmp(c.as_bitslice()), Some(Ordering::Greater));
    assert!(a > *c.as_bitslice());
    assert!(a < b && b >= a && a <= a.clone());
    assert_eq!(PartialOrd::partial_cmp(c.as_bitslice(), &a), Some(Ordering::Less));
    assert_eq!(c.as_bitslice().cmp(a.as_bitslice()), Ordering::Less);
    let le: BitBox<LittleEndian, u16> = BitBox::from_elements(&[0]);
    let be: BitBox<BigEndian, u8> = BitBox::from_elements(&[0, 0]);
    assert!(le == be);
    assert_eq!(le.partial_cmp(&be), Some(Ordering::Equal));
}

#[test]
fn range_indexing() {
    let b: BitBox = BitBox::from_elements(&[0b1100_1010, 0b0101_0011]);
    let all = bits_of(&b);
    assert_eq!(slice_bits(&b.index_range(2, 11)), all[2..11].to_vec());
    assert_eq!(slice_bits(&b.index_from(9)), all[9..].to_vec());
    assert_eq!(slice_bits(&b.index_to(5)), all[..5].to_vec());
    assert_eq!(slice_bits(&b.index_inclusive(3, 8)), all[3..=8].to_vec());
    assert_eq!(slice_bits(&b.index_to_inclusive(15)), all[..=15].to_vec());
    assert_eq!(slice_bits(&b.index_full()), all);
    assert_eq!(b.index_range(4, 4).len(), 0);
    let inner = b.index_range(9, 12);
    assert_eq!(inner.bitptr().elts(), 1);
    assert_eq!((inner.bitptr().head(), inner.bitptr().tail()), (1, 4));
}

#[test]
fn into_iter_yields_every_bit_from_both_ends() {
    let b = boxed(&[true, false, false, true, true]);
    let mut it = b.clone().into_iter();
    assert_eq!(it.size_hint(), (5, Some(5)));
    assert_eq!(it.next(), Some(true));
    assert_eq!(it.next_back(), Some(true));
    assert_eq!(it.len(), 3);
    assert_eq!(it.nth(1), Some(false));
    assert_eq!(it.next(), Some(true));
    assert_eq!(it.next(), None);
    assert_eq!(it.next_back(), None);
    let mut all = Vec::new();
    let mut it = b.clone().into_iter();
    while let Some(x) = it.next() {
        all.push(x);
    }
    assert_eq!(all, bits_of(&b));
    assert_eq!(b.clone().into_iter().count(), 5);
    assert_eq!(b.clone().into_iter().last(), Some(true));
    let mut it = b.clone().into_iter();
    assert_eq!(it.nth(7), None);
    assert_eq!(it.next(), None);
    let view = b.clone().into_iter();
    assert_eq!(view.iterator().len(), 5);
}

#[test]
fn borrowed_iteration() {
    let b = boxed(&[false, true, true]);
    let mut it = b.iter();
    assert_eq!(it.next_back(), Some(true));
    assert_eq!(it.bounds(), (0, 2));
    assert_eq!(it.next(), Some(false));
    assert_eq!(it.count(), 1);
    assert_eq!(b.iter().last(), Some(true));
    assert_eq!(b.as_bitslice().iter().size_hint(), (3, Some(3)));
}

#[test]
fn slice_queries() {
    let b = boxed(&[false, false, true]);
    let s = b.as_bitslice();
    assert!(s.any());
    assert!(!s.not_any());
    assert!(!s.is_empty());
    let mut z = s.copy();
    z.set_all(false);
    assert!(z.not_any());
    assert_eq!(BitSlice::<BigEndian, u8>::empty().len(), 0);
}

#[test]
fn display_groups_bits_by_element() {
    let whole: BitBox = BitBox::from_elements(&[0b0100_1011u8, 0b0100_0000u8]);
    let first_ten = BitBox::new(&whole.index_to(10));
    assert_eq!(first_ten.to_string(), "[01001011, 01]");
    assert_eq!(first_ten.as_bitslice().to_string(), "[01001011, 01]");
    let shifted: BitBox = BitBox::from_elements(&[0xF0, 0x0F]);
    let mid = BitBox::new(&shifted.index_range(3, 13));
    assert_eq!(mid.to_string(), "[10000, 00001]");
    let empty: BitBox = BitBox::default();
    assert_eq!(empty.to_string(), "[]");
}

#[test]
fn debug_names_the_type() {
    let b: BitBox<LittleEndian, u16> = BitBox::from_elements(&[1u16]);
    assert_eq!(b.to_debug_string(), "BitBox<LittleEndian, u16> [1000000000000000]");
    let c = boxed(&[true, false]);
    assert_eq!(c.to_debug_string(), "BitBox<BigEndian, u8> [10]");
}

#[test]
fn addition_of_equal_lengths_commutes() {
    let a = boxed(&[true, false, true, true]);
    let b = boxed(&[false, true, true, false]);
    let ab = a.clone().add(b.clone());
    let ba = b.add(a);
    assert!(ab == ba);
    assert_eq!(bits_of(&ab), vec![false, false, false, true]);
}

#[test]
fn shifts_compose() {
    let b = boxed(&[true, true, false, true, false, true]);
    let mut twice = b.clone();
    twice.shr_assign(1);
    twice.shr_assign(2);
    assert!(twice == b.clone().shr(3));
    let round = b.clone().shl(2).shr(2);
    assert_eq!(bits_of(&round), vec![false, false, false, true, false, true]);
}

#[test]
fn ordering_reverses_with_the_operands() {
    let a = boxed(&[true, false, true]);
    let b = boxed(&[true, true]);
    assert_eq!(a.cmp(&b), Ordering::Less);
    assert_eq!(b.cmp(&a), Ordering::Greater);
    assert_eq!(a.partial_cmp(&b).map(|o| o.reverse()), b.partial_cmp(&a));
}

#[test]
fn box_of_a_range_keeps_the_elements_it_spans() {
    let bs: BitSlice<BigEndian, u8> = BitSlice::from_elements(&[5u8, 10]);
    let range = bs.subslice(3, 13);
    let b = BitBox::new(&range);
    assert_eq!(b.len(), 10);
    assert!(b == range);
    let set: Vec<usize> = (0..10).filter(|&i| b.index(i)).collect();
    assert_eq!(set, vec![2, 4, 9]);
    assert_eq!(b.as_elements(), &[5u8, 10]);
    let whole: BitBox = BitBox::from_elements(&[1, 2, 3]);
    let mid = whole.index_range(9, 15);
    assert_eq!(mid.bitptr().elements(), &[2u8]);
    assert_eq!((mid.bitptr().head(), mid.bitptr().tail()), (1, 7));
    let tail = whole.index_from(12);
    assert_eq!(tail.bitptr().elements(), &[2u8, 3]);
    assert_eq!((tail.bitptr().head(), tail.bitptr().tail()), (4, 8));
}

#[test]
fn writing_through_a_range() {
    let mut b = boxed(&[false; 8]);
    let ones = boxed(&[true, true, true]);
    b.write_range(2, ones.as_bitslice());
    assert_eq!(bits_of(&b), vec![false, false, true, true, true, false, false, false]);
    let mut part = b.index_range(1, 6);
    part.shl_assign(1);
    b.write_range(1, &part);
    assert_eq!(bits_of(&b), vec![false, true, true, true, false, false, false, false]);
}

#[test]
fn writing_storage_elements() {
    let whole: BitBox = BitBox::from_elements(&[0, 0]);
    let mut b = BitBox::new(&whole.index_range(4, 12));
    b.set_element(0, 0xFF);
    assert_eq!(b.as_elements(), &[0xFF, 0]);
    assert_eq!(bits_of(&b), vec![true, true, true, true, false, false, false, false]);
}

#[test]
fn in_place_operations_keep_bits_outside_the_live_region() {
    let whole: BitBox = BitBox::from_elements(&[0xFF, 0xFF]);
    let mut b = BitBox::new(&whole.index_range(2, 10));
    b.as_mut_bitslice().set_all(false);
    assert_eq!(b.as_elements(), &[0b1100_0000, 0b0011_1111]);
    let b = b.not();
    assert_eq!(b.as_elements(), &[0xFF, 0xFF]);
    let b = b.shl(3).neg();
    assert_eq!(b.as_elements()[0] & 0b1100_0000, 0b1100_0000);
    assert_eq!(b.as_elements()[1] & 0b0011_1111, 0b0011_1111);
}
