//! An owned, heap-allocated slice of bits (`BitBox`), with the storage
//! element, bit-order and region model it is built on.
//!
//! - `bits`: the unsigned integers that store bits.
//! - `cursor`: bit orders within one storage element.
//! - `pointer`: the region descriptor (elements, head index, tail index).
//! - `slice`: bit slices, read and written bit by bit.
//! - `num`: bit sequences read as unsigned numbers.
//! - `ops`: arithmetic, shifts and bitwise operations on slices.
//! - `compare`: equality and lexicographic ordering.
//! - `iter`: iteration from either end.
//! - `boxed`: the owning `BitBox` and its consuming iterator.
//! - `render`: text renderings.
//! - `laws`: properties that hold across calls.

pub mod bits;
pub mod cursor;
pub mod pointer;
pub mod slice;
pub mod num;
pub mod ops;
pub mod compare;
pub mod iter;
pub mod boxed;
pub mod render;
pub mod laws;

pub use bits::Bits;
pub use boxed::{BitBox, IntoIter};
pub use cursor::{BigEndian, Cursor, LittleEndian};
pub use pointer::BitPtr;
pub use slice::BitSlice;
