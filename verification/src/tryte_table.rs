//! Tryte-prefixed names for the items of [`crate::table`], whose width is
//! the tryte, and the name of the instruction set this core carries: none.
//! Instruction decoding, tape and charset support belong to architecture
//! crates built on top of this core.

use vstd::prelude::*;

pub use crate::table::entry_by_trits as tryte_entry_by_trits;
pub use crate::table::entry_by_value as tryte_entry_by_value;
pub use crate::table::entries as tryte_table;
pub use crate::table::Entry as TryteEntry;
pub use crate::table::OFFSET as TRYTE_OFFSET;
pub use crate::table::TABLE_SIZE as TRYTE_TABLE_SIZE;

verus! {

/// The core carries no instruction set; see architecture crates.
pub const ISA_NAME: &'static str = "none";

} // verus!
