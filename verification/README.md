# lib — an owned slice of bits, verified with Verus

`BitBox<C, T>` owns a fixed-length sequence of bits stored in unsigned
integers of type `T` (`u8`, `u16`, `u32`, `u64`) and ordered within each
element by a cursor `C` (`BigEndian`: index 0 is the most significant bit;
`LittleEndian`: index 0 is the least significant bit).

Every operation is specified over the sequence of bits it holds (its view, a
`Seq<bool>`) and, where storage matters, over its storage elements and the
head and tail indices of the live region:

- construction from a bit slice, from elements, from a boxed slice, from a
  raw region; conversion back to elements or to a region; leaking;
- reading and writing bits and storage elements, copying sub-ranges
  (with the elements, head and tail they occupy) and writing them back;
- wrapping addition and two's-complement negation, stated over the value of
  the bits read as a binary number, most significant bit first;
- inversion, shifts towards either end, bitwise AND/OR/XOR;
- equality and lexicographic ordering across bit orders and element types;
- iteration from both ends, owning or borrowing;
- text renderings grouped by storage element.

`src/laws.rs` and the `law_*` proof functions in `src/compare.rs` and
`src/boxed.rs` state properties that span several calls. `tests/` runs the
library on concrete values.
