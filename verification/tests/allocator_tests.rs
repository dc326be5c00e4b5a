use scudo::chunks::chunks_in_range;
use scudo::chunks::contains_chunk;
use scudo::chunks::count_chunks_with_size;
use scudo::chunks::Chunk;
use scudo::layout::fit_layout;
use scudo::layout::AllocRequest;
use scudo::layout::MIN_ALIGNMENT;
use scudo::model::FatalCorruption;
use scudo::model::LiveSet;
use scudo::GlobalScudoAllocator;

#[test]
fn test_fit_layout_keeps_a_wide_enough_alignment() {
    let fitted = fit_layout(AllocRequest { size: 4242, align: 16 });
    assert_eq!(fitted.size, 4242);
    assert_eq!(fitted.align, 16);
}

#[test]
fn test_fit_layout_widens_a_narrow_alignment() {
    let fitted = fit_layout(AllocRequest { size: 10, align: 1 });
    assert_eq!(fitted.size, 10);
    assert_eq!(fitted.align, MIN_ALIGNMENT);

    let zero = fit_layout(AllocRequest { size: 0, align: 4 });
    assert_eq!(zero.size, 0);
    assert_eq!(zero.align, MIN_ALIGNMENT);

    // Widening a second time changes nothing.
    assert_eq!(fit_layout(zero), zero);
}

#[test]
fn test_capability_fits_like_the_free_function() {
    let allocator = GlobalScudoAllocator;
    let request = AllocRequest { size: 64, align: 2 };
    assert_eq!(allocator.fit(request), fit_layout(request));
}

#[test]
fn test_fit_layout_is_the_same_at_free_time() {
    let at_alloc = fit_layout(AllocRequest { size: 128, align: 2 });
    let at_free = fit_layout(AllocRequest { size: 128, align: 2 });
    assert_eq!(at_alloc, at_free);
}

#[test]
fn test_allocate_then_enumerate_reports_exactly_one_chunk() {
    // Allocate 4242 bytes at 16-byte alignment, enumerate the whole address
    // space, and find exactly one chunk of that size; free it and find none.
    let request = fit_layout(AllocRequest { size: 4242, align: 16 });
    let mut live = LiveSet::new();
    live.record_allocation(0x1000, request.size);

    let seen = live.enumerate(0, usize::MAX);
    assert_eq!(seen.len(), 1);
    assert_eq!(count_chunks_with_size(&seen, 4242), 1);

    assert_eq!(live.record_deallocation(0x1000, request.size, true), Ok(()));
    let seen = live.enumerate(0, usize::MAX);
    assert_eq!(count_chunks_with_size(&seen, 4242), 0);
}

#[test]
fn test_deallocate_removes_exactly_one_chunk_of_that_size() {
    let mut live = LiveSet::new();
    live.record_allocation(0x1000, 64);
    live.record_allocation(0x2000, 64);
    assert_eq!(live.count_of_size(64), 2);

    assert_eq!(live.record_deallocation(0x1000, 64, true), Ok(()));
    assert_eq!(live.count_of_size(64), 1);
}

#[test]
fn test_allocate_free_allocate_returns_to_baseline() {
    let mut live = LiveSet::new();
    live.record_allocation(0x8000, 32);
    let baseline = live.count_of_size(4242);

    live.record_allocation(0x1000, 4242);
    assert_eq!(live.record_deallocation(0x1000, 4242, true), Ok(()));
    live.record_allocation(0x1000, 4242);
    assert_eq!(live.record_deallocation(0x1000, 4242, true), Ok(()));

    assert_eq!(live.count_of_size(4242), baseline);
    assert_eq!(live.count_of_size(32), 1);
}

#[test]
fn test_empty_window_visits_nothing() {
    let mut live = LiveSet::new();
    live.record_allocation(0, 8);
    live.record_allocation(0x1000, 16);

    let seen = live.enumerate(0, 0);
    assert!(seen.is_empty());
}

#[test]
fn test_disjoint_window_visits_nothing() {
    let chunks = vec![Chunk { base: 0x1000, size: 16 }, Chunk { base: 0x2000, size: 32 }];
    let seen = chunks_in_range(&chunks, 0x3000, 0x1000);
    assert!(seen.is_empty());

    let seen = chunks_in_range(&chunks, 0x1000, 0x1001);
    assert_eq!(seen, chunks);
}

#[test]
fn test_enumeration_reports_no_chunk_twice() {
    let mut live = LiveSet::new();
    live.record_allocation(0x1000, 16);
    live.record_allocation(0x2000, 16);
    live.record_allocation(0x3000, 32);

    let seen = live.enumerate(0, usize::MAX);
    assert_eq!(seen.len(), 3);
    for i in 0..seen.len() {
        for j in i + 1..seen.len() {
            assert_ne!(seen[i].base, seen[j].base);
        }
    }
}

#[test]
fn test_contains_chunk() {
    let chunks = vec![Chunk { base: 0x1000, size: 16 }];
    assert!(contains_chunk(&chunks, 0x1000, 16));
    assert!(!contains_chunk(&chunks, 0x1000, 17));
    assert!(!contains_chunk(&chunks, 0x1008, 16));
}

#[test]
fn test_double_free_is_fatal() {
    let mut live = LiveSet::new();
    live.record_allocation(0x1000, 128);
    assert_eq!(live.record_deallocation(0x1000, 128, true), Ok(()));
    assert_eq!(
        live.record_deallocation(0x1000, 128, true),
        Err(FatalCorruption::InvalidFree)
    );
}

#[test]
fn test_misaligned_free_is_fatal() {
    let mut live = LiveSet::new();
    live.record_allocation(0x1000, 128);
    assert_eq!(
        live.record_deallocation(0x1001, 128, true),
        Err(FatalCorruption::InvalidFree)
    );
    assert_eq!(live.count_of_size(128), 1);
}

#[test]
fn test_free_past_the_chunk_header_is_fatal() {
    let mut live = LiveSet::new();
    live.record_allocation(0x1000, 16);
    assert_eq!(
        live.record_deallocation(0x1010, 16, true),
        Err(FatalCorruption::InvalidFree)
    );
}

#[test]
fn test_size_mismatch_is_fatal_while_checked() {
    let mut live = LiveSet::new();
    live.record_allocation(0x1000, 128);
    assert_eq!(
        live.record_deallocation(0x1000, 64, true),
        Err(FatalCorruption::SizeMismatch)
    );
    // With delete_size_mismatch switched off the engine frees the chunk.
    assert_eq!(live.record_deallocation(0x1000, 64, false), Ok(()));
    assert_eq!(live.count_of_size(128), 0);
}
