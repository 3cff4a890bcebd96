use kernel::memory::boot_info::BootInformation;
use kernel::memory::boot_info::ElfSection;
use kernel::memory::controller;
use kernel::memory::controller::kernel_bounds;
use kernel::memory::frame_allocator::AreaFrameAllocator;
use kernel::memory::frame_allocator::FrameAllocator;
use kernel::memory::frame_allocator::MemoryArea;
use kernel::memory::heap;
use kernel::memory::paging::entry::Entry;
use kernel::memory::paging::entry::EntryFlags;
use kernel::memory::paging::entry::PRESENT;
use kernel::memory::paging::entry::WRITABLE;
use kernel::memory::paging::ActivePageTable;
use kernel::memory::paging::PagingError;
use kernel::memory::ram::PhysicalMemory;
use kernel::memory::stack_allocator::Stack;
use kernel::memory::stack_allocator::StackAllocator;
use kernel::memory::Frame;
use kernel::memory::Page;
use kernel::memory::KERNEL_HEAP_SIZE;
use kernel::memory::KERNEL_HEAP_START;
use kernel::memory::KERNEL_OFFSET;

const ROOT: u64 = 0x10;

fn machine() -> ActivePageTable {
    let mut memory = PhysicalMemory::new();
    let mut entry = Entry(0);
    entry.set(Frame { number: ROOT }, EntryFlags::from_bits_truncate(PRESENT | WRITABLE));
    memory.write(&Frame { number: ROOT }, 511, entry.0);
    ActivePageTable::new(memory, Frame { number: ROOT })
}

fn allocator(frames: u64) -> AreaFrameAllocator {
    AreaFrameAllocator::new(
        0,
        0xfff,
        0,
        0xfff,
        vec![MemoryArea { base_addr: 0x100000, length: frames * 0x1000 }],
    )
}

#[test]
fn kernel_bounds_span_the_sections_that_occupy_memory() {
    let sections = vec![
        ElfSection { addr: 0x5000, size: 0x100, flags: 0x0 },
        ElfSection { addr: 0x20_0000, size: 0x3000, flags: 0x2 },
        ElfSection { addr: 0x10_0000, size: 0x1000, flags: 0x6 },
        ElfSection { addr: 0x90_0000, size: 0x1000, flags: 0x1 },
        ElfSection { addr: 0x30_0000, size: 0x10, flags: 0x3 },
    ];
    assert_eq!(kernel_bounds(&sections), Ok((0x10_0000, 0x30_0010)));
    assert_eq!(kernel_bounds(&Vec::new()), Err(PagingError::MissingBootTag));
    assert_eq!(
        kernel_bounds(&vec![ElfSection { addr: 0x5000, size: 0x100, flags: 0x5 }]),
        Err(PagingError::MissingBootTag)
    );
    assert_eq!(
        kernel_bounds(&vec![ElfSection { addr: u64::MAX, size: 1, flags: 0x2 }]),
        Err(PagingError::InvalidRange)
    );
    assert_eq!(
        kernel_bounds(&vec![ElfSection { addr: u64::MAX, size: 0, flags: 0x2 }]),
        Ok((u64::MAX, u64::MAX))
    );
}

#[test]
fn stack_lies_above_its_guard_page() {
    let mut table = machine();
    let mut frames = allocator(64);
    let first = Page::from_number(0x100).unwrap();
    let last = Page::from_number(0x105).unwrap();
    let mut stacks = StackAllocator::new(Page::range_inclusive(first, last));
    assert_eq!(stacks.alloc_stack(&mut table, &mut frames, 0), Ok(None));
    let stack = stacks.alloc_stack(&mut table, &mut frames, 2).unwrap().unwrap();
    assert_eq!(stack.bottom(), 0x101000);
    assert_eq!(stack.top(), 0x103000);
    // the guard page is not mapped, the pages of the stack are
    assert_eq!(table.translate(0x100000), Ok(None));
    assert!(table.translate(0x101000).unwrap().is_some());
    assert!(table.translate(0x102fff).unwrap().is_some());
    assert_eq!(table.translate(0x103000), Ok(None));
    // three pages are left: too few for a stack of three pages
    assert_eq!(stacks.alloc_stack(&mut table, &mut frames, 3), Ok(None));
    let small = stacks.alloc_stack(&mut table, &mut frames, 1).unwrap().unwrap();
    assert_eq!((small.bottom(), small.top()), (0x104000, 0x105000));
    assert_eq!(table.translate(0x103000), Ok(None));
    assert_eq!(stacks.alloc_stack(&mut table, &mut frames, 1), Ok(None));
    assert_eq!(Stack::new(0x2000, 0x1000).top(), 0x2000);
}

#[test]
fn stack_without_frames_is_refused() {
    let mut table = machine();
    let mut frames = allocator(3);
    let first = Page::from_number(0x100).unwrap();
    let last = Page::from_number(0x105).unwrap();
    let mut stacks = StackAllocator::new(Page::range_inclusive(first, last));
    assert_eq!(
        stacks.alloc_stack(&mut table, &mut frames, 2),
        Err(PagingError::OutOfFrames)
    );
}

#[test]
fn heap_is_mapped_from_start_to_end() {
    let mut table = machine();
    let mut frames = allocator(40000);
    let last = heap::init(&mut table, &mut frames).unwrap();
    assert_eq!(last.number(), heap::HEAP_END_PAGE);
    assert_eq!(last.start_address(), KERNEL_HEAP_START + KERNEL_HEAP_SIZE - 0x1000);
    assert!(table.translate(KERNEL_HEAP_START).unwrap().is_some());
    assert!(table.translate(KERNEL_HEAP_START + KERNEL_HEAP_SIZE - 1).unwrap().is_some());
    assert_eq!(table.translate(KERNEL_HEAP_START + KERNEL_HEAP_SIZE), Ok(None));
    assert_eq!(table.translate(KERNEL_HEAP_START - 1), Ok(None));
    // 32768 pages and, for them, 64 tables of level 1, one of level 2 and
    // one of level 3
    assert_eq!(frames.allocate_frame(), Some(Frame { number: 0x100 + 32768 + 66 }));
}

#[test]
fn heap_without_frames_is_refused() {
    let mut table = machine();
    let mut frames = allocator(100);
    assert_eq!(heap::init(&mut table, &mut frames).err(), Some(PagingError::OutOfFrames));
}

fn boot_information() -> BootInformation {
    BootInformation {
        start_address: 0x9000,
        end_address: 0xa800,
        memory_areas: Some(vec![
            MemoryArea { base_addr: 0, length: 0x9f000 },
            MemoryArea { base_addr: 0x10_0000, length: 0x900_0000 },
        ]),
        elf_sections: Some(vec![
            ElfSection { addr: KERNEL_OFFSET + 0x10000, size: 0x2100, flags: 0x6 },
            ElfSection { addr: KERNEL_OFFSET + 0x20000, size: 0x1000, flags: 0x3 },
        ]),
        modules: Vec::new(),
    }
}

#[test]
fn init_sets_the_memory_manager_up() {
    let mut controller = controller::init(machine(), &boot_information()).unwrap();
    let table = &controller.active_table;
    assert_eq!(table.translate(KERNEL_OFFSET + 0x11000), Ok(Some(0x11000)));
    assert_eq!(table.translate(0xb8000), Ok(Some(0xb8000)));
    assert!(table.translate(KERNEL_HEAP_START).unwrap().is_some());
    // the stacks lie above the heap
    let stack = controller.alloc_stack(4).unwrap().unwrap();
    assert_eq!(stack.bottom(), KERNEL_HEAP_START + KERNEL_HEAP_SIZE + 0x1000);
    assert_eq!(stack.top(), KERNEL_HEAP_START + KERNEL_HEAP_SIZE + 0x5000);
    assert_eq!(controller.alloc_stack(0), Ok(None));
    assert_eq!(controller.alloc_stack(200), Ok(None));
    // 101 pages were set aside, 5 are used
    assert!(controller.alloc_stack(95).unwrap().is_some());
    assert_eq!(controller.alloc_stack(1), Ok(None));
}

#[test]
fn init_refuses_boot_information_without_its_parts() {
    let mut no_areas = boot_information();
    no_areas.memory_areas = None;
    assert_eq!(controller::init(machine(), &no_areas).err(), Some(PagingError::MissingBootTag));
    let mut no_sections = boot_information();
    no_sections.elf_sections = None;
    assert_eq!(controller::init(machine(), &no_sections).err(), Some(PagingError::MissingBootTag));
    let mut bad_area = boot_information();
    bad_area.memory_areas = Some(vec![MemoryArea { base_addr: 0x1000, length: 0 }]);
    assert_eq!(controller::init(machine(), &bad_area).err(), Some(PagingError::InvalidRange));
}

#[test]
fn init_refuses_sections_and_roots_out_of_range() {
    let mut idle = boot_information();
    idle.elf_sections = Some(vec![ElfSection { addr: KERNEL_OFFSET + 0x10000, size: 0x100, flags: 0x4 }]);
    assert_eq!(controller::init(machine(), &idle).err(), Some(PagingError::MissingBootTag));
    let mut endless = boot_information();
    endless.elf_sections = Some(vec![ElfSection { addr: u64::MAX - 0xfff, size: 0x1000, flags: 0x2 }]);
    assert_eq!(controller::init(machine(), &endless).err(), Some(PagingError::InvalidRange));
    let root = 0x800_0000;
    let mut memory = PhysicalMemory::new();
    let mut entry = Entry(0);
    entry.set(Frame { number: root }, EntryFlags::from_bits_truncate(PRESENT | WRITABLE));
    memory.write(&Frame { number: root }, 511, entry.0);
    let high = ActivePageTable::new(memory, Frame { number: root });
    assert_eq!(controller::init(high, &boot_information()).err(), Some(PagingError::InvalidRange));
}
