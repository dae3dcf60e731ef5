use allocator::{AllocError, EarlyAllocator, Layout};

const PAGE: usize = 0x1000;
const WORD: usize = core::mem::size_of::<usize>();

fn layout(size: usize, align: usize) -> Layout {
    Layout::from_size_align(size, align).unwrap()
}

fn region() -> EarlyAllocator<PAGE> {
    let mut a = EarlyAllocator::<PAGE>::new();
    a.init(0x10000, 0x10000);
    a
}

#[test]
fn bytes_then_pages_share_one_region() {
    let mut a = region();
    assert_eq!(a.allocate(layout(16, 8)), Ok(0x10000));
    assert_eq!(a.allocate(layout(3, 1)), Ok(0x10010));
    assert_eq!(a.alloc_pages(2, 0x1000), Ok(0x1E000));
}

#[test]
fn thousand_pages_do_not_fit() {
    let mut a = region();
    assert_eq!(a.alloc_pages(1000, 0x1000), Err(AllocError::NoMemory));
}

#[test]
fn half_page_alignment_is_malformed() {
    let mut a = region();
    assert_eq!(a.alloc_pages(1, 0x0800), Err(AllocError::InvalidParam));
}

#[test]
fn fresh_allocator_is_empty() {
    let a = EarlyAllocator::<PAGE>::new();
    assert_eq!(a.available_bytes(), 0);
    assert_eq!(a.used_bytes(), 0);
    assert_eq!(a.available_pages(), 0);
    assert_eq!(a.used_pages(), 0);
}

#[test]
fn fresh_allocator_serves_no_bytes() {
    let mut a = EarlyAllocator::<PAGE>::new();
    assert_eq!(a.allocate(layout(1, 1)), Err(AllocError::NoMemory));
}

#[test]
fn init_frees_the_whole_region() {
    let a = region();
    assert_eq!(a.available_bytes(), 0x10000);
    assert_eq!(a.used_bytes(), 0);
    assert_eq!(a.available_pages(), 16);
    assert_eq!(a.used_pages(), 0);
}

#[test]
fn bytes_advance_by_effective_size() {
    let mut a = region();
    let mut expected = 0x10000;
    let requests: [(usize, usize, usize); 8] = [
        (0, 1, WORD),
        (1, 1, WORD),
        (WORD, 1, WORD),
        (9, 1, 16),
        (16, 8, 16),
        (17, 2, 32),
        (100, 4, 128),
        (4, 64, 64),
    ];
    for (size, align, effective) in requests {
        let before = a.available_bytes();
        assert_eq!(a.allocate(layout(size, align)), Ok(expected));
        assert_eq!(a.available_bytes(), before - effective);
        expected += effective;
    }
    assert_eq!(a.used_bytes(), expected - 0x10000);
}

#[test]
fn bytes_fill_the_region_exactly() {
    let mut a = EarlyAllocator::<PAGE>::new();
    a.init(0x4000, 64);
    assert_eq!(a.allocate(layout(32, 1)), Ok(0x4000));
    assert_eq!(a.allocate(layout(32, 1)), Ok(0x4020));
    assert_eq!(a.available_bytes(), 0);
    assert_eq!(a.used_bytes(), 64);
    assert_eq!(a.allocate(layout(1, 1)), Err(AllocError::NoMemory));
}

#[test]
fn failed_byte_request_keeps_the_cursor_moved() {
    let mut a = region();
    assert_eq!(a.allocate(layout(0x20000, 1)), Err(AllocError::NoMemory));
    assert_eq!(a.available_bytes(), 0);
    assert_eq!(a.used_bytes(), 0x10000);
    assert_eq!(a.allocate(layout(1, 1)), Err(AllocError::NoMemory));
    assert_eq!(a.alloc_pages(1, PAGE), Err(AllocError::NoMemory));
}

#[test]
fn failed_byte_request_stops_at_the_top_of_the_address_space() {
    let mut a = EarlyAllocator::<PAGE>::new();
    a.init(usize::MAX - 0xFFF, 0xFFF);
    assert_eq!(a.available_bytes(), 0xFFF);
    assert_eq!(a.allocate(layout(0x1000, 1)), Err(AllocError::NoMemory));
    assert_eq!(a.available_bytes(), 0);
    assert_eq!(a.allocate(layout(1, 1)), Err(AllocError::NoMemory));
}

#[test]
fn pages_are_aligned_and_below_the_cursor() {
    let mut a = EarlyAllocator::<PAGE>::new();
    a.init(0x10000, 0x13000);
    // The top of the region is 0x23000.
    assert_eq!(a.alloc_pages(1, 0x1000), Ok(0x22000));
    assert_eq!(a.alloc_pages(1, 0x4000), Ok(0x20000));
    assert_eq!(a.alloc_pages(3, 0x2000), Ok(0x1C000));
    assert_eq!(a.alloc_pages(2, 0x8000), Ok(0x18000));
    assert_eq!(a.available_bytes(), 0x8000);
    assert_eq!(a.used_bytes(), 0xB000);
    assert_eq!(a.available_pages(), 8);
    assert_eq!(a.used_pages(), 11);
}

#[test]
fn zero_pages_only_align_the_cursor() {
    let mut a = EarlyAllocator::<PAGE>::new();
    a.init(0x10000, 0x10800);
    assert_eq!(a.alloc_pages(0, 0x1000), Ok(0x20000));
    assert_eq!(a.alloc_pages(0, 0x1000), Ok(0x20000));
    assert_eq!(a.available_bytes(), 0x10000);
}

#[test]
fn pages_meet_the_bytes() {
    let mut a = region();
    assert_eq!(a.allocate(layout(0x1000, 1)), Ok(0x10000));
    assert_eq!(a.alloc_pages(15, PAGE), Ok(0x11000));
    assert_eq!(a.available_bytes(), 0);
    assert_eq!(a.alloc_pages(1, PAGE), Err(AllocError::NoMemory));
}

#[test]
fn failed_page_request_keeps_the_cursor_moved() {
    let mut a = region();
    assert_eq!(a.allocate(layout(0x1000, 1)), Ok(0x10000));
    assert_eq!(a.alloc_pages(16, PAGE), Err(AllocError::NoMemory));
    assert_eq!(a.available_bytes(), 0);
    assert_eq!(a.used_bytes(), 0x10000);
    assert_eq!(a.alloc_pages(1, PAGE), Err(AllocError::NoMemory));
    assert_eq!(a.allocate(layout(1, 1)), Err(AllocError::NoMemory));
}

#[test]
fn failed_page_request_stops_at_the_bottom_of_the_address_space() {
    let mut a = region();
    assert_eq!(a.alloc_pages(1000, PAGE), Err(AllocError::NoMemory));
    assert_eq!(a.available_bytes(), 0);
    assert_eq!(a.alloc_pages(0, PAGE), Err(AllocError::NoMemory));
    assert_eq!(a.allocate(layout(1, 1)), Err(AllocError::NoMemory));
}

#[test]
fn page_count_beyond_the_address_space_is_no_memory() {
    let mut a = region();
    assert_eq!(a.alloc_pages(usize::MAX, PAGE), Err(AllocError::NoMemory));
    assert_eq!(a.available_bytes(), 0);
}

#[test]
fn alignment_off_the_page_size_changes_nothing() {
    let mut a = region();
    for align in [1, 0x800, 0x1001, 0x1800, 0x2fff] {
        assert_eq!(a.alloc_pages(1, align), Err(AllocError::InvalidParam));
        assert_eq!(a.available_bytes(), 0x10000);
        assert_eq!(a.used_bytes(), 0);
    }
    assert_eq!(a.alloc_pages(1, PAGE), Ok(0x1F000));
}

#[test]
fn alignment_of_an_odd_page_count_changes_nothing() {
    let mut a = region();
    for align in [0, 3 * PAGE, 5 * PAGE, 6 * PAGE, 12 * PAGE] {
        assert_eq!(a.alloc_pages(1, align), Err(AllocError::InvalidParam));
        assert_eq!(a.available_bytes(), 0x10000);
        assert_eq!(a.used_bytes(), 0);
    }
    assert_eq!(a.alloc_pages(1, PAGE), Ok(0x1F000));
}

#[test]
fn page_size_need_not_be_a_power_of_two() {
    let mut a = EarlyAllocator::<3000>::new();
    a.init(1000, 20000);
    assert_eq!(a.alloc_pages(1, 6000), Ok(18000));
    assert_eq!(a.alloc_pages(1, 3000), Ok(15000));
    assert_eq!(a.alloc_pages(1, 4096), Err(AllocError::InvalidParam));
    assert_eq!(a.available_pages(), 4);
    assert_eq!(a.used_pages(), 2);
}

#[test]
fn nothing_is_given_back() {
    let mut a = region();
    let l = layout(64, 8);
    let addr = a.allocate(l).unwrap();
    let used = a.used_bytes();
    assert_eq!(used, 64);
    a.dealloc(addr, l);
    assert_eq!(a.used_bytes(), used);
    assert_eq!(a.allocate(l), Ok(addr + 64));
    let pages = a.alloc_pages(2, PAGE).unwrap();
    let used = a.used_bytes();
    assert_eq!(used, 128 + 2 * PAGE);
    a.dealloc_pages(pages, 2);
    assert_eq!(a.used_bytes(), used);
    assert_eq!(a.alloc_pages(2, PAGE), Ok(pages - 2 * PAGE));
}

#[test]
fn second_init_starts_over() {
    let mut a = region();
    assert_eq!(a.allocate(layout(16, 8)), Ok(0x10000));
    a.init(0x40000, 0x2000);
    assert_eq!(a.used_bytes(), 0);
    assert_eq!(a.available_bytes(), 0x2000);
    assert_eq!(a.allocate(layout(16, 8)), Ok(0x40000));
}
