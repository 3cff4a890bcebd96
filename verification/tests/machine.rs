use kernel::interrupts;
use kernel::interrupts::PageFaultErrorCode;
use kernel::interrupts::CAUSED_BY_WRITE;
use kernel::interrupts::INSTRUCTION_FETCH;
use kernel::interrupts::PROTECTION_VIOLATION;
use kernel::interrupts::USER_MODE;
use kernel::memory::frame_allocator::AreaFrameAllocator;
use kernel::memory::frame_allocator::FrameAllocator;
use kernel::memory::frame_allocator::MemoryArea;
use kernel::memory::paging::entry::Entry;
use kernel::memory::paging::entry::EntryFlags;
use kernel::memory::paging::entry::PRESENT;
use kernel::memory::paging::entry::WRITABLE;
use kernel::memory::paging::mapper::Mapper;
use kernel::memory::paging::mapper::TlbFlush;
use kernel::memory::paging::table::Table;
use kernel::memory::paging::ActivePageTable;
use kernel::memory::paging::PagingError;
use kernel::memory::ram::PhysicalMemory;
use kernel::memory::Frame;
use kernel::memory::Page;

const ROOT: u64 = 0x10;

fn memory() -> PhysicalMemory {
    let mut memory = PhysicalMemory::new();
    let mut entry = Entry(0);
    entry.set(Frame { number: ROOT }, EntryFlags::from_bits_truncate(PRESENT | WRITABLE));
    memory.write(&Frame { number: ROOT }, 511, entry.0);
    memory
}

fn allocator() -> AreaFrameAllocator {
    AreaFrameAllocator::new(
        0,
        0xfff,
        0,
        0xfff,
        vec![MemoryArea { base_addr: 0x100000, length: 0x100000 }],
    )
}

#[test]
fn memory_reads_zero_where_nothing_was_written() {
    let mut memory = PhysicalMemory::new();
    assert_eq!(memory.read(&Frame { number: 5 }, 0), 0);
    assert_eq!(memory.read(&Frame { number: u64::MAX }, 511), 0);
    memory.write(&Frame { number: 5 }, 7, 0xabc);
    memory.write(&Frame { number: u64::MAX }, 511, 1);
    assert_eq!(memory.read(&Frame { number: 5 }, 7), 0xabc);
    assert_eq!(memory.read(&Frame { number: 5 }, 6), 0);
    assert_eq!(memory.read(&Frame { number: 6 }, 7), 0);
    assert_eq!(memory.read(&Frame { number: u64::MAX }, 511), 1);
    memory.clear_frame(&Frame { number: 5 });
    assert_eq!(memory.read(&Frame { number: 5 }, 7), 0);
    assert_eq!(memory.read(&Frame { number: u64::MAX }, 511), 1);
}

#[test]
fn memory_lists_the_frames_that_were_written() {
    let mut memory = PhysicalMemory::new();
    assert!(memory.written_frames().is_empty());
    memory.write(&Frame { number: 5 }, 7, 0xabc);
    memory.write(&Frame { number: 5 }, 8, 0xdef);
    memory.write(&Frame { number: 9 }, 0, 1);
    let frames = memory.written_frames();
    assert!(frames.contains(&Frame { number: 5 }));
    assert!(frames.contains(&Frame { number: 9 }));
    assert!(!frames.contains(&Frame { number: 6 }));
}

#[test]
fn mapper_keeps_the_state_of_the_machine() {
    let mut mapper = Mapper::new(memory(), Frame { number: ROOT });
    assert_eq!(mapper.root_frame(), Frame { number: ROOT });
    assert_eq!(mapper.ram().read(&Frame { number: ROOT }, 511), (ROOT << 12) | 3);
    mapper.flush(TlbFlush::Page(0x1000));
    mapper.flush(TlbFlush::All);
    assert_eq!(mapper.take_flushes(), vec![TlbFlush::Page(0x1000), TlbFlush::All]);
    assert!(mapper.take_flushes().is_empty());
    mapper.pin(&Frame { number: 7 });
    assert!(mapper.is_pinned(&Frame { number: 7 }));
    assert!(!mapper.is_pinned(&Frame { number: 8 }));
    // no table is put into a frame that is pinned
    let mut frames = allocator();
    mapper.pin(&Frame { number: 0x101 });
    let page = Page::containing_address(0x5000).unwrap();
    assert_eq!(
        mapper.map_to(page, Frame { number: 1 }, EntryFlags::empty(), &mut frames),
        Err(PagingError::TableInUse)
    );
    mapper.unpin_all();
    assert!(!mapper.is_pinned(&Frame { number: 7 }));
    mapper.set_root(Frame { number: 0x20 });
    assert_eq!(mapper.root_frame(), Frame { number: 0x20 });
    let table = Table::window(&Frame { number: 0x30 }, 0);
    mapper.set_entry(&table, 3, Entry(0x1234));
    assert_eq!(mapper.entry(&table, 3), Entry(0x1234));
    mapper.clear_table(&table);
    assert_eq!(mapper.entry(&table, 3), Entry(0));
}

#[test]
fn range_of_pages_is_mapped_page_by_page() {
    let mut mapper = Mapper::new(memory(), Frame { number: ROOT });
    let mut frames = allocator();
    let first = Page::from_number(0x1ff).unwrap();
    let last = Page::from_number(0x201).unwrap();
    let flags = EntryFlags::from_bits_truncate(WRITABLE);
    assert_eq!(mapper.map_range(Page::range_inclusive(first, last), flags, &mut frames), Ok(()));
    // the range runs over the end of a table of level 1: for each page a
    // frame was taken, and after it the frames for the tables it needed
    assert_eq!(mapper.translate(0x1ff000), Ok(Some(0x100000)));
    assert_eq!(mapper.translate(0x200000), Ok(Some(0x104000)));
    assert_eq!(mapper.translate(0x201fff), Ok(Some(0x106fff)));
    assert_eq!(mapper.translate(0x202000), Ok(None));
    assert_eq!(frames.allocate_frame(), Some(Frame { number: 0x107 }));
    // an empty range maps nothing
    assert_eq!(mapper.map_range(Page::range_inclusive(last, first), flags, &mut frames), Ok(()));
    // a range with a page that is mapped stops there
    let before = Page::from_number(0x1fe).unwrap();
    assert_eq!(
        mapper.map_range(Page::range_inclusive(before, first), flags, &mut frames),
        Err(PagingError::PageAlreadyMapped)
    );
    assert!(mapper.translate(0x1fe000).unwrap().is_some());
}

#[test]
fn page_fault_is_reported_with_what_is_known() {
    assert_eq!(PageFaultErrorCode::from_bits(0x20), None);
    assert_eq!(PageFaultErrorCode::from_bits(u64::MAX), None);
    let code = PageFaultErrorCode::from_bits(PROTECTION_VIOLATION | CAUSED_BY_WRITE).unwrap();
    assert_eq!(code.bits(), 3);
    assert!(code.contains(CAUSED_BY_WRITE));
    assert!(code.contains(PROTECTION_VIOLATION | CAUSED_BY_WRITE));
    assert!(!code.contains(USER_MODE));
    assert!(!code.contains(CAUSED_BY_WRITE | INSTRUCTION_FETCH));
    assert_eq!(PageFaultErrorCode::from_bits(0x1f).map(|all| all.bits()), Some(0x1f));

    let mut table = ActivePageTable::new(memory(), Frame { number: ROOT });
    let mut frames = allocator();
    let page = Page::containing_address(0x5000).unwrap();
    table.map_to(page, Frame { number: 0x77 }, EntryFlags::empty(), &mut frames).unwrap();
    let fault = interrupts::page_fault(&table, 0x5123, 0x2);
    assert_eq!(fault.address, 0x5123);
    assert_eq!(fault.code.map(|code| code.bits()), Some(2));
    assert_eq!(fault.translation, Ok(Some(0x77123)));
    let fault = interrupts::page_fault(&table, 0x9000, 0x40);
    assert_eq!(fault.code, None);
    assert_eq!(fault.translation, Ok(None));
    let fault = interrupts::page_fault(&table, 0x8000_0000_0000, 0);
    assert_eq!(fault.translation, Err(PagingError::NonCanonicalAddress));
}

#[test]
fn memory_lists_a_frame_that_was_written_with_zeros() {
    let mut memory = PhysicalMemory::new();
    memory.write(&Frame { number: 4 }, 3, 0);
    assert_eq!(memory.written_frames(), vec![Frame { number: 4 }]);
    memory.clear_frame(&Frame { number: 8 });
    let frames = memory.written_frames();
    assert!(frames.contains(&Frame { number: 4 }));
    assert!(frames.contains(&Frame { number: 8 }));
    assert_eq!(memory.read(&Frame { number: 8 }, 0), 0);
}
