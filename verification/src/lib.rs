//! Memory allocation for a runtime with no operating system underneath: one
//! contiguous region serves byte-granularity and page-granularity requests
//! from its two ends.
//!
//! - [`early`] holds the allocator itself, [`layout`] the byte requests that
//!   it takes, and [`global`] the allocator that a whole runtime shares.
//! - [`dtb`] reads the device tree that tells the runtime where its memory
//!   lies.
//! - [`hashmap`] is a small table from strings to values.
//! - [`pow2`] holds what all of them need to know of powers of two.

use vstd::prelude::*;

pub mod dtb;
pub mod early;
pub mod global;
pub mod hashmap;
pub mod layout;
pub mod pow2;

pub use early::EarlyAllocator;
pub use global::{global_add_memory, global_init, GlobalAllocator, HookAction, PAGE_SIZE};
pub use layout::Layout;

verus! {

/// Why an allocation request was turned down.
#[derive(Debug, Clone, Copy, PartialEq, Eq, Structural)]
pub enum AllocError {
    /// The request itself is malformed.
    InvalidParam,
    /// The region cannot satisfy the request.
    NoMemory,
}

/// What an allocator hands back: the address or value asked for, or the reason
/// why there is none.
pub type AllocResult<T = ()> = Result<T, AllocError>;

} // verus!
