//! The early allocator: one region, two cursors. Byte requests move a forward
//! cursor up from the base of the region, page requests move a backward cursor
//! down from its top. Nothing is ever given back, and a cursor that was moved
//! by a request that failed stays where that request left it.

use crate::layout::Layout;
use crate::pow2::{
    is_power_of_two, lemma_next_pow2, lemma_next_pow2_bounded, lemma_pow2_divides,
    lemma_pow2_gap, lemma_pow2_positive, lemma_pow2_top, next_pow2, next_power_of_two,
};
use crate::{AllocError, AllocResult};
use vstd::arithmetic::power2::is_pow2;
use vstd::layout::size_of;
use vstd::prelude::*;

verus! {

/// The size of a machine word, in bytes.
pub open spec fn word_size() -> int {
    size_of::<usize>() as int
}

/// The number of bytes that a byte request takes from the region: its size
/// rounded up to a power of two, but no less than its alignment and no less
/// than a machine word.
pub open spec fn effective_size(layout: Layout) -> int {
    let rounded = next_pow2(layout.size() as int);
    let floor = if layout.align() >= word_size() {
        layout.align() as int
    } else {
        word_size()
    };
    if rounded >= floor {
        rounded
    } else {
        floor
    }
}

/// The greatest multiple of `align` that is not above `addr`.
pub open spec fn align_down(addr: int, align: int) -> int {
    addr - addr % align
}

/// Whether a page request may ask for the alignment `align`, in bytes: it is
/// a whole number of pages, and that number is a power of two.
pub open spec fn page_align_ok(align: int, page_size: int) -> bool {
    page_size > 0 && align % page_size == 0 && is_pow2(align / page_size)
}

/// An early allocator as four numbers.
pub struct BumpView {
    /// Where the region starts.
    pub base: int,
    /// How many bytes the region spans.
    pub capacity: int,
    /// Where the next byte request will be placed.
    pub forward: int,
    /// Where the lowest page handed out so far starts.
    pub backward: int,
}

impl BumpView {
    /// An allocator that has no region yet.
    pub open spec fn empty() -> BumpView {
        BumpView { base: 0, capacity: 0, forward: 0, backward: 0 }
    }

    /// An allocator that was just given the region of `size` bytes at `start`.
    pub open spec fn region(start: int, size: int) -> BumpView {
        BumpView { base: start, capacity: size, forward: start, backward: start + size }
    }

    /// What holds of every allocator, whatever was asked of it: the region
    /// lies in the address space, and neither cursor has left it on the side
    /// that it started from.
    pub open spec fn well_formed(self) -> bool {
        &&& 0 <= self.base <= self.forward <= usize::MAX
        &&& 0 <= self.capacity
        &&& 0 <= self.backward <= self.base + self.capacity <= usize::MAX
    }

    /// The cursors have not crossed.
    pub open spec fn healthy(self) -> bool {
        self.forward <= self.backward
    }

    /// The bytes between the cursors; none once they have crossed.
    pub open spec fn available(self) -> int {
        if self.forward <= self.backward {
            self.backward - self.forward
        } else {
            0
        }
    }

    /// The bytes of the region that are no longer between the cursors.
    pub open spec fn used(self) -> int {
        self.capacity - self.available()
    }

    /// The allocator after a byte request that takes `bytes` bytes. The
    /// forward cursor moves up by `bytes` whether or not the request can be
    /// met, and stops only at the top of the address space.
    pub open spec fn after_alloc(self, bytes: int) -> BumpView {
        BumpView {
            forward: if self.forward + bytes <= usize::MAX {
                self.forward + bytes
            } else {
                usize::MAX as int
            },
            ..self
        }
    }

    /// The answer to a byte request that takes `bytes` bytes: the address
    /// where the forward cursor stood, if the bytes fit below the backward
    /// cursor.
    pub open spec fn alloc_result(self, bytes: int) -> AllocResult<usize> {
        if self.forward + bytes <= self.backward {
            Ok(self.forward as usize)
        } else {
            Err(AllocError::NoMemory)
        }
    }

    /// Where a request for `num_pages` pages aligned to `align` bytes puts
    /// the backward cursor: down by the pages, then down to a multiple of
    /// `align`.
    pub open spec fn page_target(self, num_pages: int, align: int, page_size: int) -> int {
        align_down(self.backward - num_pages * page_size, align)
    }

    /// The allocator after a request for `num_pages` pages aligned to `align`
    /// bytes. A malformed request changes nothing. Any other moves the
    /// backward cursor whether or not it can be met, and the cursor stops
    /// only at the bottom of the address space.
    pub open spec fn after_alloc_pages(self, num_pages: int, align: int, page_size: int)
        -> BumpView {
        if !page_align_ok(align, page_size) {
            self
        } else {
            let target = self.page_target(num_pages, align, page_size);
            BumpView {
                backward: if target >= 0 {
                    target
                } else {
                    0
                },
                ..self
            }
        }
    }

    /// The answer to a request for `num_pages` pages aligned to `align`
    /// bytes: the new place of the backward cursor, if that is not below the
    /// forward cursor.
    pub open spec fn alloc_pages_result(self, num_pages: int, align: int, page_size: int)
        -> AllocResult<usize> {
        if !page_align_ok(align, page_size) {
            Err(AllocError::InvalidParam)
        } else if self.page_target(num_pages, align, page_size) < self.forward {
            Err(AllocError::NoMemory)
        } else {
            Ok(self.page_target(num_pages, align, page_size) as usize)
        }
    }
}

/// What can be asked of an early allocator.
pub enum Request {
    /// A byte request that takes `bytes` bytes.
    Bytes { bytes: int },
    /// A request for `num_pages` pages aligned to `align` bytes.
    Pages { num_pages: int, align: int },
    /// To take bytes or pages back.
    Free,
}

impl BumpView {
    /// The allocator after `request`.
    pub open spec fn after(self, request: Request, page_size: int) -> BumpView {
        match request {
            Request::Bytes { bytes } => self.after_alloc(bytes),
            Request::Pages { num_pages, align } => self.after_alloc_pages(
                num_pages,
                align,
                page_size,
            ),
            Request::Free => self,
        }
    }

    /// Whether `request` ends in `NoMemory`.
    pub open spec fn fails(self, request: Request, page_size: int) -> bool {
        match request {
            Request::Bytes { bytes } => self.alloc_result(bytes) is Err,
            Request::Pages { num_pages, align } => self.alloc_pages_result(
                num_pages,
                align,
                page_size,
            ) == Err::<usize, AllocError>(AllocError::NoMemory),
            Request::Free => false,
        }
    }

    /// The allocator after `requests`, one after the other.
    pub open spec fn after_all(self, requests: Seq<Request>, page_size: int) -> BumpView
        decreases requests.len(),
    {
        if requests.len() == 0 {
            self
        } else {
            self.after_all(requests.drop_last(), page_size).after(requests.last(), page_size)
        }
    }

    /// Whether none of `requests`, made one after the other, ends in
    /// `NoMemory`.
    pub open spec fn none_failed(self, requests: Seq<Request>, page_size: int) -> bool
        decreases requests.len(),
    {
        requests.len() == 0 || (self.none_failed(requests.drop_last(), page_size)
            && !self.after_all(requests.drop_last(), page_size).fails(requests.last(), page_size))
    }
}

/// A bump allocator that serves byte requests from the bottom of its region
/// and page requests, in pages of `PAGE_SIZE` bytes, from the top.
pub struct EarlyAllocator<const PAGE_SIZE: usize> {
    base: usize,
    cap: usize,
    forward: usize,
    backward: usize,
}

impl<const PAGE_SIZE: usize> View for EarlyAllocator<PAGE_SIZE> {
    type V = BumpView;

    closed spec fn view(&self) -> BumpView {
        BumpView {
            base: self.base as int,
            capacity: self.cap as int,
            forward: self.forward as int,
            backward: self.backward as int,
        }
    }
}

/// The number of bytes that the byte request `layout` takes from the region.
pub fn request_size(layout: Layout) -> (bytes: usize)
    ensures
        bytes == effective_size(layout),
        bytes <= isize::MAX + 1,
{
    let size = layout.size();
    let align = layout.align();
    proof {
        lemma_pow2_top();
        lemma_next_pow2_bounded(size as int, isize::MAX + 1);
        vstd::layout::usize_size_pow2();
        lemma_pow2_positive(align as int);
    }
    let rounded = next_power_of_two(size);
    let word = core::mem::size_of::<usize>();
    let floor = if align >= word {
        align
    } else {
        word
    };
    if rounded >= floor {
        rounded
    } else {
        floor
    }
}

impl<const PAGE_SIZE: usize> EarlyAllocator<PAGE_SIZE> {
    /// Every allocator is well formed.
    #[verifier::type_invariant]
    pub open spec fn well_formed(self) -> bool {
        self@.well_formed()
    }

    /// An allocator without a region. Every byte request to it fails.
    pub fn new() -> (r: Self)
        ensures
            r@ == BumpView::empty(),
    {
        Self { base: 0, cap: 0, forward: 0, backward: 0 }
    }

    /// Gives the allocator the region of `size` bytes at `start`, all of it
    /// free.
    pub fn init(&mut self, start: usize, size: usize)
        requires
            start + size <= usize::MAX,
        ensures
            final(self)@ == BumpView::region(start as int, size as int),
    {
        *self = Self { base: start, cap: size, forward: start, backward: start + size };
    }

    /// Serves a byte request from the bottom of the free space.
    /// The request takes `effective_size(layout)` bytes. The forward cursor
    /// moves up by that much whether or not the bytes fit below the backward
    /// cursor; if they fit, they lie where the cursor stood.
    pub fn allocate(&mut self, layout: Layout) -> (r: AllocResult<usize>)
        ensures
            final(self)@ == old(self)@.after_alloc(effective_size(layout)),
            r == old(self)@.alloc_result(effective_size(layout)),
            r is Ok <==> old(self)@.forward + effective_size(layout) <= old(self)@.backward,
            r matches Ok(addr) ==> addr == old(self)@.forward && final(self)@.forward == addr
                + effective_size(layout),
            r matches Err(e) ==> e == AllocError::NoMemory && final(self)@.available() == 0,
    {
        proof {
            use_type_invariant(&*self);
            use_type_invariant(&layout);
            lemma_effective_size(layout);
            if self@.forward + effective_size(layout) > self@.backward {
                lemma_allocate_failure(self@, effective_size(layout));
            }
        }
        let bytes = request_size(layout);
        let addr = self.forward;
        match addr.checked_add(bytes) {
            Some(end) => {
                self.forward = end;
                if end > self.backward {
                    Err(AllocError::NoMemory)
                } else {
                    Ok(addr)
                }
            },
            None => {
                self.forward = usize::MAX;
                Err(AllocError::NoMemory)
            },
        }
    }

    /// Takes a byte allocation back. This allocator reclaims nothing.
    pub fn dealloc(&mut self, _pos: usize, _layout: Layout)
        ensures
            final(self)@ == old(self)@,
    {
    }

    /// Serves a request for `num_pages` pages, aligned to `align_pow2` bytes,
    /// from the top of the free space.
    ///
    /// The alignment must be a whole number of pages, and that number a
    /// power of two; a request with another alignment ends in `InvalidParam`
    /// and changes nothing. Any other moves the backward cursor down by the
    /// pages and on to a multiple of the alignment, whether or not it then
    /// lies below the forward cursor; if it does not, the pages start there.
    pub fn alloc_pages(&mut self, num_pages: usize, align_pow2: usize) -> (r: AllocResult<usize>)
        requires
            PAGE_SIZE > 0,
        ensures
            final(self)@ == old(self)@.after_alloc_pages(
                num_pages as int,
                align_pow2 as int,
                PAGE_SIZE as int,
            ),
            r == old(self)@.alloc_pages_result(
                num_pages as int,
                align_pow2 as int,
                PAGE_SIZE as int,
            ),
            align_pow2 % PAGE_SIZE != 0 || !is_pow2((align_pow2 / PAGE_SIZE) as int) <==> r
                == Err::<usize, AllocError>(AllocError::InvalidParam),
            r == Err::<usize, AllocError>(AllocError::InvalidParam) ==> final(self)@ == old(
                self,
            )@,
            r matches Ok(addr) ==> {
                &&& addr % align_pow2 == 0
                &&& old(self)@.forward <= addr
                &&& addr + num_pages * PAGE_SIZE <= old(self)@.backward
                &&& final(self)@.backward == addr
            },
            r == Err::<usize, AllocError>(AllocError::NoMemory) ==> final(self)@.available()
                == 0,
    {
        proof {
            use_type_invariant(&*self);
            if page_align_ok(align_pow2 as int, PAGE_SIZE as int) {
                lemma_page_target(self@, num_pages as int, align_pow2 as int, PAGE_SIZE as int);
            }
        }
        if align_pow2 % PAGE_SIZE != 0 {
            return Err(AllocError::InvalidParam);
        }
        if !is_power_of_two(align_pow2 / PAGE_SIZE) {
            return Err(AllocError::InvalidParam);
        }
        proof {
            lemma_pow2_positive((align_pow2 / PAGE_SIZE) as int);
            lemma_page_target(self@, num_pages as int, align_pow2 as int, PAGE_SIZE as int);
        }
        let top = self.backward;
        match num_pages.checked_mul(PAGE_SIZE) {
            Some(bytes) => {
                if bytes <= top {
                    let lowered = top - bytes;
                    let target = lowered - lowered % align_pow2;
                    self.backward = target;
                    if self.forward > target {
                        Err(AllocError::NoMemory)
                    } else {
                        Ok(target)
                    }
                } else {
                    self.backward = 0;
                    Err(AllocError::NoMemory)
                }
            },
            None => {
                self.backward = 0;
                Err(AllocError::NoMemory)
            },
        }
    }

    /// Takes pages back. This allocator reclaims nothing.
    pub fn dealloc_pages(&self, _pos: usize, _num_pages: usize) {
    }

    /// The bytes of the region that are no longer free.
    pub fn used_bytes(&self) -> (r: usize)
        ensures
            r == self@.used(),
    {
        proof {
            use_type_invariant(self);
        }
        self.cap - self.available_bytes()
    }

    /// The bytes between the cursors; none once they have crossed.
    pub fn available_bytes(&self) -> (r: usize)
        ensures
            r == self@.available(),
    {
        self.backward.saturating_sub(self.forward)
    }

    /// The whole pages that the used bytes amount to.
    pub fn used_pages(&self) -> (r: usize)
        requires
            PAGE_SIZE > 0,
        ensures
            r == self@.used() / (PAGE_SIZE as int),
    {
        self.used_bytes() / PAGE_SIZE
    }

    /// The whole pages that fit between the cursors.
    pub fn available_pages(&self) -> (r: usize)
        requires
            PAGE_SIZE > 0,
        ensures
            r == self@.available() / (PAGE_SIZE as int),
    {
        self.available_bytes() / PAGE_SIZE
    }
}

/// The effective size of a byte request is a power of two, at least a
/// machine word, and fits in the address space.
pub proof fn lemma_effective_size(layout: Layout)
    requires
        layout.well_formed(),
    ensures
        is_pow2(effective_size(layout)),
        effective_size(layout) >= word_size() > 0,
        effective_size(layout) >= layout.size(),
        effective_size(layout) >= layout.align(),
        effective_size(layout) <= isize::MAX + 1,
{
    lemma_pow2_top();
    lemma_next_pow2(layout.size() as int);
    lemma_next_pow2_bounded(layout.size() as int, isize::MAX + 1);
    vstd::layout::usize_size_pow2();
    lemma_pow2_positive(word_size());
    lemma_pow2_positive(layout.align() as int);
    if word_size() > isize::MAX + 1 {
        lemma_pow2_gap(isize::MAX + 1, word_size());
    }
}

/// No request makes an allocator ill formed.
pub proof fn lemma_well_formed_kept(
    s: BumpView,
    bytes: int,
    num_pages: int,
    align: int,
    page_size: int,
)
    requires
        s.well_formed(),
        bytes >= 0,
        num_pages >= 0,
    ensures
        s.after_alloc(bytes).well_formed(),
        s.after_alloc_pages(num_pages, align, page_size).well_formed(),
{
    if page_align_ok(align, page_size) {
        lemma_page_target(s, num_pages, align, page_size);
        assert(num_pages * page_size >= 0) by (nonlinear_arith)
            requires
                num_pages >= 0,
                page_size > 0,
        ;
    }
}

/// A byte request that succeeds is placed where the forward cursor stood,
/// and moves that cursor up by exactly its effective size, which is more
/// than nothing. Nothing else changes.
pub proof fn lemma_allocate_success(s: BumpView, layout: Layout)
    requires
        s.well_formed(),
        layout.well_formed(),
        s.alloc_result(effective_size(layout)) is Ok,
    ensures
        s.alloc_result(effective_size(layout)) == Ok::<usize, AllocError>(s.forward as usize),
        s.forward as usize == s.forward,
        s.after_alloc(effective_size(layout)).forward == s.forward + effective_size(layout),
        s.after_alloc(effective_size(layout)).forward > s.forward,
        s.after_alloc(effective_size(layout)) == (BumpView {
            forward: s.forward + effective_size(layout),
            ..s
        }),
{
    lemma_effective_size(layout);
}

/// A byte request that succeeds at a word boundary leaves the forward cursor
/// at a word boundary: in a region that starts at one, every byte allocation
/// starts at one.
pub proof fn lemma_allocate_word_aligned(s: BumpView, layout: Layout)
    requires
        s.well_formed(),
        layout.well_formed(),
        s.forward % word_size() == 0,
        s.alloc_result(effective_size(layout)) is Ok,
    ensures
        s.after_alloc(effective_size(layout)).forward % word_size() == 0,
{
    lemma_effective_size(layout);
    vstd::layout::usize_size_pow2();
    lemma_pow2_divides(word_size(), effective_size(layout));
    let w = word_size();
    let a = s.forward;
    let b = effective_size(layout);
    vstd::arithmetic::div_mod::lemma_add_mod_noop(a, b, w);
}

/// A page request that succeeds is placed at a multiple of its alignment,
/// which is the page size times a power of two. Its pages end at or below
/// the place where the backward cursor stood, so a request for at least one
/// page lies strictly below it, and they start where the cursor then stands.
/// Nothing else changes.
pub proof fn lemma_alloc_pages_success(
    s: BumpView,
    num_pages: int,
    align: int,
    page_size: int,
    addr: usize,
)
    requires
        s.well_formed(),
        num_pages >= 0,
        s.alloc_pages_result(num_pages, align, page_size) == Ok::<usize, AllocError>(addr),
    ensures
        page_align_ok(align, page_size),
        align == (align / page_size) * page_size,
        (addr as int) % ((align / page_size) * page_size) == 0,
        addr + num_pages * page_size <= s.backward,
        num_pages >= 1 ==> addr < s.backward,
        s.forward <= addr,
        s.after_alloc_pages(num_pages, align, page_size) == (BumpView {
            backward: addr as int,
            ..s
        }),
{
    lemma_page_target(s, num_pages, align, page_size);
    vstd::arithmetic::div_mod::lemma_fundamental_div_mod(align, page_size);
    assert(align == (align / page_size) * page_size) by (nonlinear_arith)
        requires
            align == page_size * (align / page_size) + align % page_size,
            align % page_size == 0,
    ;
    assert(num_pages * page_size >= num_pages) by (nonlinear_arith)
        requires
            num_pages >= 0,
            page_size > 0,
    ;
}

/// While every request so far was met, the cursors have not crossed: a fresh
/// allocator and one that was just given its region have them in order, and
/// a request that does not end in `NoMemory` keeps them so.
pub proof fn lemma_order_kept(
    s: BumpView,
    start: int,
    size: int,
    bytes: int,
    num_pages: int,
    align: int,
    page_size: int,
)
    requires
        s.healthy(),
        size >= 0,
    ensures
        BumpView::empty().healthy(),
        BumpView::region(start, size).healthy(),
        s.alloc_result(bytes) is Ok ==> s.after_alloc(bytes).healthy(),
        s.alloc_pages_result(num_pages, align, page_size) != Err::<usize, AllocError>(
            AllocError::NoMemory,
        ) ==> s.after_alloc_pages(num_pages, align, page_size).healthy(),
{
}

/// As long as no request has ended in `NoMemory`, the cursors have not
/// crossed, however many requests were made and whatever they asked for.
pub proof fn lemma_order_kept_through(s: BumpView, requests: Seq<Request>, page_size: int)
    requires
        s.healthy(),
        s.none_failed(requests, page_size),
    ensures
        s.after_all(requests, page_size).healthy(),
    decreases requests.len(),
{
    if requests.len() > 0 {
        lemma_order_kept_through(s, requests.drop_last(), page_size);
    }
}

/// A byte request that would take the forward cursor past the backward
/// cursor ends in `NoMemory`, and leaves no byte free. Unless the forward
/// cursor was stopped at the top of the address space with the backward
/// cursor still there, it has then passed the backward cursor.
pub proof fn lemma_allocate_failure(s: BumpView, bytes: int)
    requires
        s.well_formed(),
        s.forward + bytes > s.backward,
    ensures
        s.alloc_result(bytes) == Err::<usize, AllocError>(AllocError::NoMemory),
        s.after_alloc(bytes).available() == 0,
        s.forward + bytes <= usize::MAX || s.backward < usize::MAX ==> s.after_alloc(
            bytes,
        ).forward > s.after_alloc(bytes).backward,
{
}

/// A well-formed page request that would take the backward cursor below the
/// forward cursor ends in `NoMemory`, and leaves no byte free. Unless the
/// backward cursor was stopped at the bottom of the address space with the
/// forward cursor still there, it has then passed the forward cursor.
pub proof fn lemma_alloc_pages_failure(s: BumpView, num_pages: int, align: int, page_size: int)
    requires
        s.well_formed(),
        page_align_ok(align, page_size),
        s.page_target(num_pages, align, page_size) < s.forward,
    ensures
        s.alloc_pages_result(num_pages, align, page_size) == Err::<usize, AllocError>(
            AllocError::NoMemory,
        ),
        s.after_alloc_pages(num_pages, align, page_size).available() == 0,
        s.page_target(num_pages, align, page_size) >= 0 || s.forward > 0 ==> s.after_alloc_pages(
            num_pages,
            align,
            page_size,
        ).backward < s.after_alloc_pages(num_pages, align, page_size).forward,
{
}

/// A page request whose alignment is not a whole number of pages, or is a
/// number of pages that is no power of two, ends in `InvalidParam` and
/// changes nothing.
pub proof fn lemma_alloc_pages_malformed(s: BumpView, num_pages: int, align: int, page_size: int)
    requires
        page_size > 0,
        align % page_size != 0 || !is_pow2(align / page_size),
    ensures
        s.alloc_pages_result(num_pages, align, page_size) == Err::<usize, AllocError>(
            AllocError::InvalidParam,
        ),
        s.after_alloc_pages(num_pages, align, page_size) == s,
{
}

/// The early allocator reclaims nothing: no request lowers the number of
/// used bytes, and a byte request that succeeds raises it by the effective
/// size for good.
pub proof fn lemma_used_never_decreases(
    s: BumpView,
    bytes: int,
    num_pages: int,
    align: int,
    page_size: int,
)
    requires
        s.well_formed(),
        bytes >= 0,
        num_pages >= 0,
    ensures
        s.after_alloc(bytes).used() >= s.used(),
        s.after_alloc_pages(num_pages, align, page_size).used() >= s.used(),
        s.alloc_result(bytes) is Ok ==> s.after_alloc(bytes).used() == s.used() + bytes,
{
    if page_align_ok(align, page_size) {
        lemma_page_target(s, num_pages, align, page_size);
        assert(num_pages * page_size >= 0) by (nonlinear_arith)
            requires
                num_pages >= 0,
                page_size > 0,
        ;
    }
}

/// Rounding down to a multiple of an alignment that a page request may ask
/// for: the result is a multiple of the alignment, lies less than one
/// alignment below the address, and is negative exactly if the address is.
pub proof fn lemma_page_target(s: BumpView, num_pages: int, align: int, page_size: int)
    requires
        page_align_ok(align, page_size),
    ensures
        align >= page_size,
        s.page_target(num_pages, align, page_size) % align == 0,
        s.page_target(num_pages, align, page_size) <= s.backward - num_pages * page_size,
        s.backward - num_pages * page_size - align < s.page_target(num_pages, align, page_size),
        s.backward - num_pages * page_size >= 0 <==> s.page_target(num_pages, align, page_size)
            >= 0,
{
    lemma_pow2_positive(align / page_size);
    let count = align / page_size;
    assert(align == page_size * count) by {
        vstd::arithmetic::div_mod::lemma_fundamental_div_mod(align, page_size);
    }
    assert(align >= page_size) by (nonlinear_arith)
        requires
            align == page_size * count,
            count >= 1,
            page_size > 0,
    ;
    let raw = s.backward - num_pages * page_size;
    let target = raw - raw % align;
    assert(0 <= raw % align < align) by {
        vstd::arithmetic::div_mod::lemma_mod_bound(raw, align);
    }
    assert(target % align == 0) by {
        vstd::arithmetic::div_mod::lemma_fundamental_div_mod(raw, align);
        vstd::arithmetic::div_mod::lemma_mod_multiples_basic(raw / align, align);
        assert(target == align * (raw / align));
        assert(target == (raw / align) * align) by (nonlinear_arith)
            requires
                target == align * (raw / align),
        ;
    }
    if raw >= 0 && target < 0 {
        assert(target % align == 0);
        assert(-align < target < 0);
        vstd::arithmetic::div_mod::lemma_small_mod((target + align) as nat, align as nat);
        vstd::arithmetic::div_mod::lemma_mod_add_multiples_vanish(target, align);
    }
}

} // verus!
