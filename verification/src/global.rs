//! The allocator that a whole runtime shares: one early allocator with pages
//! of 4 KiB, and what the runtime's allocation hook does with its answers.
//! Whoever owns the value decides how callers take turns; every operation
//! here runs to its end on the allocator it was handed.

use crate::early::{effective_size, BumpView, EarlyAllocator};
use crate::layout::Layout;
use crate::AllocResult;
use vstd::pervasive::unreached;
use vstd::prelude::*;

verus! {

/// The size of a page, in bytes.
pub const PAGE_SIZE: usize = 0x1000;

/// What the runtime's allocation hook does with the answer to a byte
/// request. The hook has no way to report a failure to its caller: it hands
/// out an address that is not null, or it does not return.
#[derive(Clone, Copy, Debug, PartialEq, Eq, Structural)]
pub enum HookAction {
    /// Hand this address to the caller.
    Return(usize),
    /// Enter the fatal path for a failed allocation.
    Abort,
}

/// The action that the hook owes for the answer `r` to a byte request: the
/// address, if there is one and it is not null, and the fatal path otherwise.
pub open spec fn hook_action(r: AllocResult<usize>) -> HookAction {
    match r {
        Ok(addr) => if addr != 0 {
            HookAction::Return(addr)
        } else {
            HookAction::Abort
        },
        Err(_) => HookAction::Abort,
    }
}

/// The allocator of the whole runtime.
pub struct GlobalAllocator {
    inner: EarlyAllocator<PAGE_SIZE>,
}

impl View for GlobalAllocator {
    type V = BumpView;

    closed spec fn view(&self) -> BumpView {
        self.inner@
    }
}

impl GlobalAllocator {
    /// Whether the strategy behind this allocator can take a second region.
    /// The early allocator cannot.
    pub open spec fn can_add_memory(&self) -> bool {
        false
    }

    /// An allocator without a region.
    pub fn new() -> (r: Self)
        ensures
            r@ == BumpView::empty(),
            r@.well_formed(),
    {
        Self { inner: EarlyAllocator::new() }
    }

    /// The name of the strategy behind this allocator.
    pub fn name(&self) -> (r: &'static str)
        ensures
            r@ == "early"@,
    {
        "early"
    }

    /// Gives the allocator the region of `size` bytes at `start`. It is meant
    /// to be called once, before the first request; a later call starts over
    /// with the new region.
    pub fn init(&mut self, start_vaddr: usize, size: usize)
        requires
            start_vaddr + size <= usize::MAX,
        ensures
            final(self)@ == BumpView::region(start_vaddr as int, size as int),
            final(self)@.well_formed(),
    {
        self.inner.init(start_vaddr, size);
    }

    /// Adds a second region. No caller can ask this of the early allocator.
    pub fn add_memory(&mut self, start_vaddr: usize, size: usize) -> (r: AllocResult)
        requires
            old(self).can_add_memory(),
        ensures
            final(self)@ == old(self)@,
    {
        unreached()
    }

    /// Serves a byte request; see [`EarlyAllocator::allocate`].
    pub fn allocate(&mut self, layout: Layout) -> (r: AllocResult<usize>)
        ensures
            final(self)@ == old(self)@.after_alloc(effective_size(layout)),
            r == old(self)@.alloc_result(effective_size(layout)),
            old(self)@.well_formed() && final(self)@.well_formed(),
    {
        proof {
            use_type_invariant(&self.inner);
        }
        let r = self.inner.allocate(layout);
        proof {
            use_type_invariant(&self.inner);
        }
        r
    }

    /// Takes a byte allocation back, which changes nothing.
    pub fn dealloc(&mut self, pos: usize, layout: Layout)
        ensures
            final(self)@ == old(self)@,
    {
        self.inner.dealloc(pos, layout)
    }

    /// Serves a request for `num_pages` pages aligned to `align_pow2` bytes;
    /// see [`EarlyAllocator::alloc_pages`].
    pub fn alloc_pages(&mut self, num_pages: usize, align_pow2: usize) -> (r: AllocResult<usize>)
        ensures
            final(self)@ == old(self)@.after_alloc_pages(
                num_pages as int,
                align_pow2 as int,
                PAGE_SIZE as int,
            ),
            r == old(self)@.alloc_pages_result(
                num_pages as int,
                align_pow2 as int,
                PAGE_SIZE as int,
            ),
            old(self)@.well_formed() && final(self)@.well_formed(),
    {
        proof {
            use_type_invariant(&self.inner);
        }
        let r = self.inner.alloc_pages(num_pages, align_pow2);
        proof {
            use_type_invariant(&self.inner);
        }
        r
    }

    /// Takes pages back, which changes nothing.
    pub fn dealloc_pages(&self, pos: usize, num_pages: usize) {
        self.inner.dealloc_pages(pos, num_pages)
    }

    /// The bytes of the region that are no longer free.
    pub fn used_bytes(&self) -> (r: usize)
        ensures
            r == self@.used(),
            self@.well_formed(),
    {
        proof {
            use_type_invariant(&self.inner);
        }
        self.inner.used_bytes()
    }

    /// The bytes that are still free.
    pub fn available_bytes(&self) -> (r: usize)
        ensures
            r == self@.available(),
    {
        self.inner.available_bytes()
    }

    /// The whole pages that the used bytes amount to.
    pub fn used_pages(&self) -> (r: usize)
        ensures
            r == self@.used() / (PAGE_SIZE as int),
    {
        self.inner.used_pages()
    }

    /// The whole pages that are still free.
    pub fn available_pages(&self) -> (r: usize)
        ensures
            r == self@.available() / (PAGE_SIZE as int),
    {
        self.inner.available_pages()
    }

    /// The allocation hook: serves the byte request as `allocate` does, and
    /// says what the hook owes its caller for the answer.
    pub fn raw_allocate(&mut self, layout: Layout) -> (action: HookAction)
        ensures
            final(self)@ == old(self)@.after_alloc(effective_size(layout)),
            action == hook_action(old(self)@.alloc_result(effective_size(layout))),
    {
        match self.inner.allocate(layout) {
            Ok(addr) => {
                if addr != 0 {
                    HookAction::Return(addr)
                } else {
                    HookAction::Abort
                }
            },
            Err(_) => HookAction::Abort,
        }
    }

    /// The deallocation hook: takes back what `raw_allocate` handed out,
    /// which is never null, and changes nothing.
    pub fn raw_free(&mut self, addr: usize, layout: Layout)
        requires
            addr != 0,
        ensures
            final(self)@ == old(self)@,
    {
        self.inner.dealloc(addr, layout)
    }
}

/// Gives the runtime's allocator its region of `size` bytes at `start_vaddr`.
/// It is meant to be called once, before the first request.
pub fn global_init(allocator: &mut GlobalAllocator, start_vaddr: usize, size: usize)
    requires
        start_vaddr + size <= usize::MAX,
    ensures
        final(allocator)@ == BumpView::region(start_vaddr as int, size as int),
{
    allocator.init(start_vaddr, size);
}

/// Adds a second region to the runtime's allocator. No caller can ask this
/// of the early allocator.
pub fn global_add_memory(allocator: &mut GlobalAllocator, start_vaddr: usize, size: usize) -> (r:
    AllocResult)
    requires
        old(allocator).can_add_memory(),
    ensures
        final(allocator)@ == old(allocator)@,
{
    allocator.add_memory(start_vaddr, size)
}

} // verus!
