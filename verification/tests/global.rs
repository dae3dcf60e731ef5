use allocator::{
    global_init, AllocError, GlobalAllocator, HookAction, Layout, PAGE_SIZE,
};

fn layout(size: usize, align: usize) -> Layout {
    Layout::from_size_align(size, align).unwrap()
}

fn ready() -> GlobalAllocator {
    let mut g = GlobalAllocator::new();
    global_init(&mut g, 0x10000, 0x10000);
    g
}

#[test]
fn global_allocator_is_the_early_one() {
    let g = GlobalAllocator::new();
    assert_eq!(g.name(), "early");
    assert_eq!(PAGE_SIZE, 4096);
    assert_eq!(g.available_bytes(), 0);
    assert_eq!(g.used_bytes(), 0);
}

#[test]
fn global_init_frees_the_whole_region() {
    let g = ready();
    assert_eq!(g.available_bytes(), 0x10000);
    assert_eq!(g.used_bytes(), 0);
    assert_eq!(g.available_pages(), 16);
    assert_eq!(g.used_pages(), 0);
    let mut h = GlobalAllocator::new();
    h.init(0x10000, 0x10000);
    assert_eq!(h.available_bytes(), 0x10000);
}

#[test]
fn global_requests_give_the_strategys_answers() {
    let mut g = ready();
    assert_eq!(g.allocate(layout(16, 8)), Ok(0x10000));
    assert_eq!(g.allocate(layout(3, 1)), Ok(0x10010));
    assert_eq!(g.alloc_pages(2, 0x1000), Ok(0x1E000));
    assert_eq!(g.alloc_pages(1, 0x0800), Err(AllocError::InvalidParam));
    assert_eq!(g.alloc_pages(1, 3 * PAGE_SIZE), Err(AllocError::InvalidParam));
    assert_eq!(g.used_bytes(), 0x2018);
    assert_eq!(g.available_bytes(), 0xDFE8);
    assert_eq!(g.used_pages(), 2);
    assert_eq!(g.available_pages(), 13);
    assert_eq!(g.alloc_pages(1000, 0x1000), Err(AllocError::NoMemory));
    assert_eq!(g.available_bytes(), 0);
    assert_eq!(g.allocate(layout(1, 1)), Err(AllocError::NoMemory));
}

#[test]
fn global_frees_change_nothing() {
    let mut g = ready();
    let l = layout(100, 4);
    let addr = g.allocate(l).unwrap();
    let pages = g.alloc_pages(1, PAGE_SIZE).unwrap();
    let used = g.used_bytes();
    assert_eq!(used, 128 + PAGE_SIZE);
    g.dealloc(addr, l);
    g.dealloc_pages(pages, 1);
    g.raw_free(addr, l);
    assert_eq!(g.used_bytes(), used);
    assert_eq!(g.allocate(l), Ok(addr + 128));
}

#[test]
fn hook_returns_what_was_allocated() {
    let mut g = ready();
    assert_eq!(g.raw_allocate(layout(16, 8)), HookAction::Return(0x10000));
    assert_eq!(g.raw_allocate(layout(3, 1)), HookAction::Return(0x10010));
    assert_eq!(g.used_bytes(), 0x18);
}

#[test]
fn hook_aborts_on_failure() {
    let mut g = ready();
    assert_eq!(g.raw_allocate(layout(0x20000, 1)), HookAction::Abort);
    assert_eq!(g.available_bytes(), 0);
    assert_eq!(g.raw_allocate(layout(1, 1)), HookAction::Abort);
    let mut empty = GlobalAllocator::new();
    assert_eq!(empty.raw_allocate(layout(1, 1)), HookAction::Abort);
}

#[test]
fn hook_never_returns_null() {
    let mut g = GlobalAllocator::new();
    g.init(0, 0x1000);
    assert_eq!(g.allocate(layout(16, 8)), Ok(0));
    let mut g = GlobalAllocator::new();
    g.init(0, 0x1000);
    assert_eq!(g.raw_allocate(layout(16, 8)), HookAction::Abort);
    assert_eq!(g.raw_allocate(layout(16, 8)), HookAction::Return(16));
}
