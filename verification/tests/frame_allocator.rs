use kernel::bitmap::Bitmap;
use kernel::memory::frame_allocator::AreaFrameAllocator;
use kernel::memory::frame_allocator::FrameAllocator;
use kernel::memory::frame_allocator::MemoryArea;
use kernel::memory::pmm;
use kernel::memory::pmm::BitmapFrameAllocator;
use kernel::memory::Frame;

fn regions() -> Vec<MemoryArea> {
    vec![
        MemoryArea { base_addr: 0, length: 0x10000 },
        MemoryArea { base_addr: 0x100000, length: 0x1000000 },
    ]
}

#[test]
fn bitmap_first_frame_lies_above_the_kernel() {
    let mut allocator = BitmapFrameAllocator::new();
    pmm::init(&mut allocator, &regions(), 0x200000);
    assert_eq!(allocator.allocate_frame(), Some(Frame { number: 0x200 }));
    assert_eq!(allocator.allocate_frame(), Some(Frame { number: 0x201 }));
}

#[test]
fn area_first_frame_lies_above_the_reserved_ranges() {
    // the low area holds the boot information, the start of the high area
    // the kernel image
    let mut allocator = AreaFrameAllocator::new(0x100000, 0x1fffff, 0, 0xffff, regions());
    assert_eq!(allocator.allocate_frame(), Some(Frame { number: 0x200 }));
    assert_eq!(allocator.allocate_frame(), Some(Frame { number: 0x201 }));
}

#[test]
fn area_frames_come_in_ascending_order_without_the_reserved() {
    // kernel in frames 2 and 3, boot information in frame 5
    let areas = vec![MemoryArea { base_addr: 0x1000, length: 0x7000 }];
    let mut allocator = AreaFrameAllocator::new(0x2000, 0x3fff, 0x5000, 0x5fff, areas);
    let mut handed_out = Vec::new();
    while let Some(frame) = allocator.allocate_frame() {
        handed_out.push(frame.number);
    }
    assert_eq!(handed_out, vec![1, 4, 6, 7]);
    assert_eq!(allocator.allocate_frame(), None);
}

#[test]
fn area_with_the_lowest_base_comes_first() {
    let areas = vec![
        MemoryArea { base_addr: 0x9000, length: 0x2000 },
        MemoryArea { base_addr: 0x3000, length: 0x1000 },
        MemoryArea { base_addr: 0x6000, length: 0x1800 },
    ];
    let mut allocator = AreaFrameAllocator::new(0, 0, 0, 0, areas);
    let mut handed_out = Vec::new();
    while let Some(frame) = allocator.allocate_frame() {
        handed_out.push(frame.number);
    }
    // the area at 0x6000 ends in the middle of frame 7
    assert_eq!(handed_out, vec![3, 6, 7, 9, 10]);
}

#[test]
fn area_frame_zero_is_handed_out_like_any_other() {
    let areas = vec![MemoryArea { base_addr: 0, length: 0x2000 }];
    let mut allocator = AreaFrameAllocator::new(0x8000, 0x8fff, 0x9000, 0x9fff, areas);
    assert_eq!(allocator.allocate_frame(), Some(Frame { number: 0 }));
    assert_eq!(allocator.allocate_frame(), Some(Frame { number: 1 }));
    assert_eq!(allocator.allocate_frame(), None);
}

#[test]
fn area_allocator_does_not_reclaim() {
    let areas = vec![MemoryArea { base_addr: 0x1000, length: 0x2000 }];
    let mut allocator = AreaFrameAllocator::new(0, 0, 0, 0, areas);
    let first = allocator.allocate_frame().unwrap();
    assert_eq!(first.number, 1);
    allocator.deallocate_frame(first);
    assert_eq!(allocator.allocate_frame(), Some(Frame { number: 2 }));
    assert_eq!(allocator.allocate_frame(), None);
}

#[test]
fn area_without_memory_hands_out_nothing() {
    let mut allocator = AreaFrameAllocator::new(0, 0, 0, 0, Vec::new());
    assert_eq!(allocator.allocate_frame(), None);
    let reserved = vec![MemoryArea { base_addr: 0x1000, length: 0x2000 }];
    let mut allocator = AreaFrameAllocator::new(0x1000, 0x2fff, 0, 0, reserved);
    assert_eq!(allocator.allocate_frame(), None);
}

#[test]
fn area_validity() {
    assert!(MemoryArea { base_addr: 0, length: 1 }.is_valid());
    assert!(MemoryArea { base_addr: u64::MAX, length: 1 }.is_valid());
    assert!(!MemoryArea { base_addr: u64::MAX, length: 2 }.is_valid());
    assert!(!MemoryArea { base_addr: 5, length: 0 }.is_valid());
}

#[test]
fn bitmap_allocator_starts_with_every_frame_in_use() {
    let mut allocator = BitmapFrameAllocator::new();
    assert_eq!(allocator.allocate_frame(), None);
}

#[test]
fn bitmap_marks_the_frames_that_hold_a_byte() {
    let mut allocator = BitmapFrameAllocator::new();
    // bytes 0x1800 to 0x37ff lie in frames 1, 2 and 3
    allocator.mark_area_as_available(0x1800, 0x2000);
    allocator.mark_area_in_use(0x2000, 0x1000);
    allocator.mark_area_in_use(0x9000, 0);
    assert_eq!(allocator.allocate_frame(), Some(Frame { number: 1 }));
    assert_eq!(allocator.allocate_frame(), Some(Frame { number: 3 }));
    assert_eq!(allocator.allocate_frame(), None);
}

#[test]
fn bitmap_hands_a_freed_frame_out_again() {
    let mut allocator = BitmapFrameAllocator::new();
    allocator.mark_area_as_available(0x100000, 0x10000);
    let first = allocator.allocate_frame().unwrap();
    let second = allocator.allocate_frame().unwrap();
    let third = allocator.allocate_frame().unwrap();
    assert_eq!((first.number, second.number, third.number), (0x100, 0x101, 0x102));
    allocator.deallocate_frame(second);
    // the freed frame comes before the frames above it that were never
    // handed out
    assert_eq!(allocator.allocate_frame(), Some(Frame { number: 0x101 }));
    assert_eq!(allocator.allocate_frame(), Some(Frame { number: 0x103 }));
}

#[test]
fn bitmap_search_starts_at_the_word_of_the_cursor() {
    let mut allocator = BitmapFrameAllocator::new();
    allocator.mark_area_as_available(0x42000, 0x2000);
    assert_eq!(allocator.allocate_frame(), Some(Frame { number: 0x42 }));
    // frame 0x41 lies below the cursor, in the same word of the bitmap
    allocator.mark_area_as_available(0x41000, 0x1000);
    assert_eq!(allocator.allocate_frame(), Some(Frame { number: 0x41 }));
    // frame 0x3f lies in the word before: it is found only once the cursor
    // is lowered
    allocator.mark_area_as_available(0x3f000, 0x1000);
    assert_eq!(allocator.allocate_frame(), Some(Frame { number: 0x43 }));
    assert_eq!(allocator.allocate_frame(), None);
    allocator.deallocate_frame(Frame { number: 0x3f });
    assert_eq!(allocator.allocate_frame(), Some(Frame { number: 0x3f }));
}

#[test]
fn bitmap_ignores_a_frame_it_has_no_bit_for() {
    let mut allocator = BitmapFrameAllocator::new();
    allocator.deallocate_frame(Frame { number: 8388608 });
    assert_eq!(allocator.allocate_frame(), None);
    allocator.deallocate_frame(Frame { number: 8388607 });
    assert_eq!(allocator.allocate_frame(), Some(Frame { number: 8388607 }));
}

#[test]
fn bitmap_init_frees_the_areas_above_the_kernel() {
    let mut allocator = BitmapFrameAllocator::new();
    let areas = vec![
        MemoryArea { base_addr: 0x1000, length: 0x3000 },
        MemoryArea { base_addr: 0x8000, length: 0x1000 },
    ];
    pmm::init(&mut allocator, &areas, 0x2001);
    // frames 1 and 2 hold bytes below the end of the kernel
    assert_eq!(allocator.allocate_frame(), Some(Frame { number: 3 }));
    assert_eq!(allocator.allocate_frame(), Some(Frame { number: 8 }));
    assert_eq!(allocator.allocate_frame(), None);
}

#[test]
fn bitmap_bits() {
    let mut bitmap = Bitmap::new(vec![0, u64::MAX, 0x5]);
    assert_eq!(bitmap.slice(), &[0u64, u64::MAX, 0x5][..]);
    assert!(!bitmap.get(0));
    assert!(bitmap.get(64));
    assert!(bitmap.get(128));
    assert!(!bitmap.get(129));
    assert!(bitmap.get(130));
    bitmap.set(129, true);
    bitmap.set(64, false);
    bitmap.set(0, false);
    bitmap.set(63, true);
    assert_eq!(bitmap.slice(), &[1u64 << 63, u64::MAX - 1, 0x7][..]);
}

#[test]
fn bitmap_first_unset_bit() {
    let bitmap = Bitmap::new(vec![u64::MAX, u64::MAX - (1 << 9), u64::MAX, 1]);
    assert_eq!(bitmap.first_unset(0), Some(73));
    assert_eq!(bitmap.first_unset(64), Some(73));
    // the search starts with the word that holds the start index
    assert_eq!(bitmap.first_unset(100), Some(73));
    assert_eq!(bitmap.first_unset(128), Some(193));
    assert_eq!(bitmap.first_unset(255), Some(193));
    assert_eq!(bitmap.first_unset(256), None);
    assert_eq!(bitmap.first_unset(100000), None);
    let full = Bitmap::new(vec![u64::MAX; 3]);
    assert_eq!(full.first_unset(0), None);
    let empty = Bitmap::new(Vec::new());
    assert_eq!(empty.first_unset(0), None);
}
