use highway::aligned::{AlignedAlloc, AllocRefused, AllocationPlan};

#[test]
fn raises_alignment_to_at_least_align() {
    assert_eq!(AlignedAlloc::<128>::effective_align(8), 128);
    assert_eq!(AlignedAlloc::<128>::effective_align(4096), 4096);
    assert_eq!(
        AlignedAlloc::<64>::plan_allocation(256, 1),
        Ok(AllocationPlan::Global { size: 256, align: 64 })
    );
}

#[test]
fn zero_size_is_dangling_at_alignment() {
    assert_eq!(
        AlignedAlloc::<128>::plan_allocation(0, 4),
        Ok(AllocationPlan::Dangling { address: 128 })
    );
    assert_eq!(AlignedAlloc::<128>::plan_deallocation(0, 4), None);
}

#[test]
fn invalid_layouts_are_refused() {
    // Not a power of two.
    assert_eq!(AlignedAlloc::<96>::plan_allocation(16, 1), Err(AllocRefused));
    // Rounded size overflows isize.
    assert_eq!(
        AlignedAlloc::<128>::plan_allocation(isize::MAX as usize, 8),
        Err(AllocRefused)
    );
}

#[test]
fn deallocation_uses_the_raised_alignment() {
    assert_eq!(AlignedAlloc::<128>::plan_deallocation(40, 8), Some((40, 128)));
    assert_eq!(AlignedAlloc::<16>::plan_deallocation(40, 64), Some((40, 64)));
}

#[test]
fn release_matches_allocation() {
    for &(size, align) in &[(40usize, 8usize), (1, 256), (4096, 64), (0, 8)] {
        let plan = AlignedAlloc::<128>::plan_allocation(size, align);
        let release = AlignedAlloc::<128>::plan_deallocation(size, align);
        match plan {
            Ok(AllocationPlan::Global { size: s, align: a }) => assert_eq!(release, Some((s, a))),
            Ok(AllocationPlan::Dangling { .. }) => assert_eq!(release, None),
            Err(_) => panic!("valid layout refused"),
        }
    }
}
