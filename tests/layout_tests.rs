use heap_trace::{real_size, HeapLayout, MyAlloc};

fn layout(size: usize, align: usize) -> HeapLayout {
    HeapLayout { size, align }
}

#[test]
fn real_size_adds_key_slot_for_small_alignment() {
    assert_eq!(real_size(&layout(100, 1)), Some(108));
    assert_eq!(real_size(&layout(100, 4)), Some(108));
    assert_eq!(real_size(&layout(100, 8)), Some(108));
}

#[test]
fn real_size_adds_whole_alignment_for_large_alignment() {
    assert_eq!(real_size(&layout(100, 16)), Some(116));
    assert_eq!(real_size(&layout(0, 4096)), Some(4096));
}

#[test]
fn real_size_overflow_is_none() {
    assert_eq!(real_size(&layout(usize::MAX - 3, 1)), None);
    assert_eq!(real_size(&layout(usize::MAX - 7, 1)), None);
    assert_eq!(real_size(&layout(usize::MAX - 8, 1)), Some(usize::MAX));
    assert_eq!(real_size(&layout(usize::MAX - 15, 16)), None);
}

#[test]
fn new_layout_raises_alignment_to_key_slot() {
    assert_eq!(layout(24, 2).new_layout(), Some(layout(32, 8)));
    assert_eq!(layout(24, 8).new_layout(), Some(layout(32, 8)));
    assert_eq!(layout(24, 64).new_layout(), Some(layout(88, 64)));
}

#[test]
fn new_layout_beyond_isize_is_none() {
    let max = isize::MAX as usize;
    assert_eq!(layout(max - 7, 1).new_layout(), None);
    assert_eq!(layout(max - 15, 8).new_layout(), Some(layout(max - 7, 8)));
}

#[test]
fn resized_size_keeps_header_offset() {
    assert_eq!(layout(10, 4).resized_size(50), Some(58));
    assert_eq!(layout(10, 32).resized_size(50), Some(82));
    assert_eq!(layout(10, 32).resized_size(usize::MAX), None);
}

#[test]
fn caller_pointer_is_aligned_for_small_and_large_alignments() {
    for align in [1usize, 2, 4, 8, 16, 32, 64, 4096] {
        let plan = MyAlloc::plan_block(layout(40, align), false, false).unwrap();
        assert!(plan.outer.align >= align);
        assert!(plan.outer.align >= 8);
        for k in 0..4usize {
            let base = plan.outer.align * (k + 1);
            let user = base + plan.offset;
            assert_eq!(user % align, 0);
            assert!(plan.offset >= 8);
            assert!(user + 40 <= base + plan.outer.size);
        }
    }
}
