//! Architecture-neutral balanced-ternary core: trits, trytes (6 trits),
//! words (18 trits) and double words (36 trits) whose arithmetic is proved
//! against the integer value of their digits; sparse ternary arrays indexed
//! from possibly negative bounds; and the substitution table of the
//! six-trit width with its debugging strings.

pub mod balanced;
pub mod digits;
pub mod dword;
pub mod laws;
pub mod table;
pub mod ternary_array;
pub mod trit;
pub mod tryte;
pub mod tryte_table;
pub mod word;
