use allocator::pow2::{is_power_of_two, next_power_of_two};
use allocator::{AllocError, Layout};

#[test]
fn layout_keeps_size_and_align() {
    let l = Layout::from_size_align(24, 16).unwrap();
    assert_eq!(l.size(), 24);
    assert_eq!(l.align(), 16);
    let l = Layout::from_size_align(0, 1).unwrap();
    assert_eq!(l.size(), 0);
    assert_eq!(l.align(), 1);
}

#[test]
fn layout_wants_a_power_of_two() {
    for align in [0, 3, 6, 12, 1000, usize::MAX] {
        assert_eq!(Layout::from_size_align(8, align).err(), Some(AllocError::InvalidParam));
    }
}

#[test]
fn layout_bounds_the_rounded_size() {
    let top = isize::MAX as usize;
    assert!(Layout::from_size_align(top, 1).is_ok());
    assert_eq!(Layout::from_size_align(top + 1, 1).err(), Some(AllocError::InvalidParam));
    assert!(Layout::from_size_align(top - 7, 8).is_ok());
    assert_eq!(Layout::from_size_align(top - 6, 8).err(), Some(AllocError::InvalidParam));
    assert!(Layout::from_size_align(0, top + 1).is_ok());
    assert_eq!(Layout::from_size_align(1, top + 1).err(), Some(AllocError::InvalidParam));
}

#[test]
fn layout_agrees_with_core() {
    let top = isize::MAX as usize;
    let sizes = [0, 1, 7, 8, 4096, top - 4096, top - 7, top - 6, top, top + 1, usize::MAX];
    let aligns = [0, 1, 2, 3, 8, 24, 4096, top + 1, usize::MAX];
    for size in sizes {
        for align in aligns {
            assert_eq!(
                Layout::from_size_align(size, align).is_ok(),
                core::alloc::Layout::from_size_align(size, align).is_ok()
            );
        }
    }
}

#[test]
fn powers_of_two_are_recognised() {
    assert!(!is_power_of_two(0));
    assert!(is_power_of_two(1));
    assert!(is_power_of_two(2));
    assert!(!is_power_of_two(3));
    assert!(is_power_of_two(4096));
    assert!(!is_power_of_two(4097));
    assert!(!is_power_of_two(6144));
    assert!(is_power_of_two(isize::MAX as usize + 1));
    assert!(!is_power_of_two(usize::MAX));
    for n in 0..5000usize {
        assert_eq!(is_power_of_two(n), n.is_power_of_two());
    }
}

#[test]
fn rounding_up_to_a_power_of_two() {
    assert_eq!(next_power_of_two(0), 1);
    assert_eq!(next_power_of_two(1), 1);
    assert_eq!(next_power_of_two(2), 2);
    assert_eq!(next_power_of_two(3), 4);
    assert_eq!(next_power_of_two(16), 16);
    assert_eq!(next_power_of_two(17), 32);
    assert_eq!(next_power_of_two(isize::MAX as usize), isize::MAX as usize + 1);
    assert_eq!(next_power_of_two(isize::MAX as usize + 1), isize::MAX as usize + 1);
    for n in 0..5000usize {
        assert_eq!(next_power_of_two(n), n.next_power_of_two());
    }
}
