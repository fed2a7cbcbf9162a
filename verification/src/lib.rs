//! Boot-time code-layout randomization for a dual-domain microcontroller.
//!
//! Before control is handed to the non-secure firmware image, every
//! relocatable code unit (functions and the interrupt vector table) is copied
//! into a sandbox memory region at a randomized address, every internal
//! cross-reference (direct branches, vector-table entries) is re-encoded for
//! the new layout, and only then is execution transferred into the relocated
//! copy.
//!
//! The crate models the memory the secure core owns during a pass (the
//! sandbox region and the relocated instances) as owned buffers, so the
//! whole pass -- permutation, placement, patching, and the handoff values --
//! is verified. The hardware edges (the vector-table base register write, the
//! non-secure branch, the random-number source) stay outside: callers supply
//! random draws and perform the final register writes with the values this
//! library computes.

pub mod adjustment;
pub mod codeblock;
pub mod errors;
pub mod objects;
pub mod perm;
pub mod runtime;
pub mod sandbox;
