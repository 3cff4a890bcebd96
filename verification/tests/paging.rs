use kernel::memory::boot_info::BootInformation;
use kernel::memory::boot_info::ElfSection;
use kernel::memory::boot_info::ModuleTag;
use kernel::memory::frame_allocator::AreaFrameAllocator;
use kernel::memory::frame_allocator::FrameAllocator;
use kernel::memory::frame_allocator::MemoryArea;
use kernel::memory::paging::entry::Entry;
use kernel::memory::paging::entry::EntryFlags;
use kernel::memory::paging::entry::HUGE_PAGE;
use kernel::memory::paging::entry::NO_EXECUTE;
use kernel::memory::paging::entry::PRESENT;
use kernel::memory::paging::entry::WRITABLE;
use kernel::memory::paging::mapper::TlbFlush;
use kernel::memory::paging::remap;
use kernel::memory::paging::temp_page::TemporaryPage;
use kernel::memory::paging::temp_page::TinyAllocator;
use kernel::memory::paging::ActivePageTable;
use kernel::memory::paging::InactivePageTable;
use kernel::memory::paging::PagingError;
use kernel::memory::ram::PhysicalMemory;
use kernel::memory::Frame;
use kernel::memory::Page;
use kernel::memory::KERNEL_OFFSET;
use kernel::memory::paging::table::Table;
use kernel::memory::paging::entry::FRAME_LIMIT;

const ROOT: u64 = 0x10;

/// A machine whose root table in frame `ROOT` holds nothing but its
/// recursive slot.
fn machine() -> ActivePageTable {
    let mut memory = PhysicalMemory::new();
    let mut entry = Entry(0);
    entry.set(Frame { number: ROOT }, EntryFlags::from_bits_truncate(PRESENT | WRITABLE));
    memory.write(&Frame { number: ROOT }, 511, entry.0);
    ActivePageTable::new(memory, Frame { number: ROOT })
}

/// An allocator over the frames 0x100 to 0x1ff.
fn allocator() -> AreaFrameAllocator {
    AreaFrameAllocator::new(
        0,
        0xfff,
        0,
        0xfff,
        vec![MemoryArea { base_addr: 0x100000, length: 0x100000 }],
    )
}

fn page(address: u64) -> Page {
    Page::containing_address(address).unwrap()
}

#[test]
fn map_to_then_translate_every_offset() {
    let mut table = machine();
    let mut frames = allocator();
    let address = 42 * 512 * 512 * 4096;
    assert_eq!(table.translate(address), Ok(None));
    let result = table.map_to(page(address), Frame { number: 0x77 }, EntryFlags::empty(), &mut frames);
    assert_eq!(result, Ok(()));
    for offset in [0u64, 1, 0x123, 0xfff] {
        assert_eq!(table.translate(address + offset), Ok(Some(0x77000 + offset)));
    }
    assert_eq!(table.translate(address + 0x1000), Ok(None));
    // three tables were made, from the three lowest frames
    assert_eq!(frames.allocate_frame(), Some(Frame { number: 0x103 }));
}

#[test]
fn map_to_refuses_a_page_that_is_mapped() {
    let mut table = machine();
    let mut frames = allocator();
    assert_eq!(table.map_to(page(0x5000), Frame { number: 1 }, EntryFlags::empty(), &mut frames), Ok(()));
    assert_eq!(
        table.map_to(page(0x5000), Frame { number: 2 }, EntryFlags::empty(), &mut frames),
        Err(PagingError::PageAlreadyMapped)
    );
    assert_eq!(table.translate(0x5000), Ok(Some(0x1000)));
}

#[test]
fn unmap_then_translate_nothing() {
    let mut table = machine();
    let mut frames = allocator();
    assert_eq!(table.map(page(0x5000), EntryFlags::from_bits_truncate(WRITABLE), &mut frames), Ok(()));
    assert!(table.translate(0x5000).unwrap().is_some());
    assert_eq!(table.unmap(page(0x5000), &mut frames), Ok(()));
    assert_eq!(table.translate(0x5000), Ok(None));
    assert_eq!(table.mapper.take_flushes(), vec![TlbFlush::Page(0x5000)]);
    assert_eq!(table.unmap(page(0x5000), &mut frames), Err(PagingError::PageNotMapped));
}

#[test]
fn translate_refuses_an_address_in_the_hole() {
    let table = machine();
    assert_eq!(table.translate(0x0000_8000_0000_0000), Err(PagingError::NonCanonicalAddress));
    assert_eq!(table.translate(0xffff_7fff_ffff_ffff), Err(PagingError::NonCanonicalAddress));
    assert_eq!(table.translate(0xffff_8000_0000_0000), Ok(None));
}

#[test]
fn with_restores_the_recursive_slot() {
    let mut table = machine();
    let mut frames = allocator();
    let mut temporary_page = TemporaryPage::new(Page::from_number(0xcafebabe).unwrap(), &mut frames);
    let frame = frames.allocate_frame().unwrap();
    let new_frame = frame.number;
    let mut new_table = InactivePageTable::new(frame, &mut table, &mut temporary_page).unwrap();
    let before = table.mapper.entry(&table.mapper.root_table(), 511);
    let result = table.with(&mut new_table, &mut temporary_page, |active| {
        // inside, the mapper works on the new table
        assert_eq!(active.mapper.p4().unwrap().frame(), Frame { number: new_frame });
        active
            .map_to(page(0x7000), Frame { number: 0x99 }, EntryFlags::empty(), &mut frames)
            .unwrap();
        assert_eq!(active.translate(0x7000), Ok(Some(0x99000)));
    });
    assert_eq!(result, Ok(()));
    assert_eq!(table.mapper.entry(&table.mapper.root_table(), 511), before);
    // the mapping was made in the other address space
    assert_eq!(table.translate(0x7000), Ok(None));
    let old_table = table.switch(new_table);
    assert_eq!(old_table.p4_frame(), Frame { number: ROOT });
    assert_eq!(table.translate(0x7000), Ok(Some(0x99000)));
}

#[test]
fn init_remaps_the_kernel() {
    let table = machine();
    let mut frames = allocator();
    let boot_info = BootInformation {
        start_address: 0x9000,
        end_address: 0xa800,
        memory_areas: None,
        elf_sections: Some(vec![
            ElfSection { addr: KERNEL_OFFSET + 0x10000, size: 0x2100, flags: 0x6 },
            ElfSection { addr: KERNEL_OFFSET + 0x20000, size: 0x1000, flags: 0x3 },
            ElfSection { addr: 0x1234, size: 0x1000, flags: 0x0 },
        ]),
        modules: vec![ModuleTag { start: 0xa000, end: 0xc000 }],
    };
    let table = remap::init(table, &mut frames, &boot_info).unwrap();
    assert_ne!(table.mapper.root_frame(), Frame { number: ROOT });
    // the page of the old root table, in frame 0x10, is a guard page
    assert_eq!(table.translate(KERNEL_OFFSET + 0x10000), Ok(None));
    // the sections lie at their load addresses
    assert_eq!(table.translate(KERNEL_OFFSET + 0x11000), Ok(Some(0x11000)));
    assert_eq!(table.translate(KERNEL_OFFSET + 0x12fff), Ok(Some(0x12fff)));
    assert_eq!(table.translate(KERNEL_OFFSET + 0x13000), Ok(None));
    assert_eq!(table.translate(KERNEL_OFFSET + 0x20000), Ok(Some(0x20000)));
    // the display buffer, the boot information and the module map to themselves
    assert_eq!(table.translate(0xb8000), Ok(Some(0xb8000)));
    assert_eq!(table.translate(0x9000), Ok(Some(0x9000)));
    assert_eq!(table.translate(0xa7ff), Ok(Some(0xa7ff)));
    assert_eq!(table.translate(0xb000), Ok(Some(0xb000)));
    assert_eq!(table.translate(0xc000), Ok(None));
}

/// An allocator that hands out the frames it was given, the last first,
/// and gathers the frames that come back.
struct Handful {
    frames: Vec<u64>,
    back: Vec<u64>,
}

impl FrameAllocator for Handful {
    fn available(&self, frame: u64) -> bool {
        self.frames.contains(&frame)
    }

    fn allocate_frame(&mut self) -> Option<Frame> {
        self.frames.pop().map(|number| Frame { number })
    }

    fn deallocate_frame(&mut self, frame: Frame) {
        self.back.push(frame.number);
    }
}

fn handful(frames: &[u64]) -> Handful {
    Handful { frames: frames.to_vec(), back: Vec::new() }
}

fn table_entry(frame: u64) -> Entry {
    let mut entry = Entry(0);
    entry.set(Frame { number: frame }, EntryFlags::from_bits_truncate(PRESENT | WRITABLE));
    entry
}

#[test]
fn map_to_keeps_the_flags_and_marks_the_entry_present() {
    let mut table = machine();
    let mut frames = handful(&[0x23, 0x22, 0x21]);
    let flags = EntryFlags::from_bits_truncate(WRITABLE | NO_EXECUTE);
    assert_eq!(table.map_to(page(0x5000), Frame { number: 0x77 }, flags, &mut frames), Ok(()));
    // the tables lie in the frames 0x21, 0x22 and 0x23, the entry in slot 5
    let p4 = table.mapper.p4().unwrap();
    assert_eq!(p4.frame(), Frame { number: ROOT });
    assert_eq!(table.mapper.entry(&p4, 0), table_entry(0x21));
    let p1 = Table::window(&Frame { number: 0x23 }, 0);
    assert_eq!(table.mapper.entry(&p1, 5).0, 0x8000_0000_0007_7003);
    assert_eq!(table.mapper.entry(&p1, 4).0, 0);
    let (p3, p2, leaf) = table.mapper.path(page(0x5000)).unwrap();
    assert_eq!((p3.number, p2.number, leaf.number), (0x21, 0x22, 0x23));
}

#[test]
fn map_to_uses_the_tables_that_are_there() {
    let mut table = machine();
    let mut frames = handful(&[0x23, 0x22, 0x21]);
    assert_eq!(table.map_to(page(0x5000), Frame { number: 1 }, EntryFlags::empty(), &mut frames), Ok(()));
    // the next page lies in the same table of level 1: no frame is needed
    assert_eq!(table.map_to(page(0x6000), Frame { number: 2 }, EntryFlags::empty(), &mut frames), Ok(()));
    assert_eq!(table.translate(0x6abc), Ok(Some(0x2abc)));
    // a page under another table of level 2 needs two frames
    assert_eq!(
        table.map_to(page(0x4000_0000), Frame { number: 3 }, EntryFlags::empty(), &mut frames),
        Err(PagingError::OutOfFrames)
    );
}

#[test]
fn map_to_refuses_a_frame_that_no_entry_can_hold() {
    let mut table = machine();
    let mut frames = allocator();
    assert_eq!(
        table.map_to(page(0x5000), Frame { number: FRAME_LIMIT }, EntryFlags::empty(), &mut frames),
        Err(PagingError::InvalidFrame)
    );
    assert_eq!(
        table.map_to(page(0x5000), Frame { number: FRAME_LIMIT - 1 }, EntryFlags::empty(), &mut frames),
        Ok(())
    );
    assert_eq!(table.translate(0x5001), Ok(Some(0x000f_ffff_ffff_f001)));
    // nor can a table lie in such a frame
    let mut far = handful(&[FRAME_LIMIT]);
    assert_eq!(
        table.map_to(page(0x80_0000_0000), Frame { number: 1 }, EntryFlags::empty(), &mut far),
        Err(PagingError::InvalidFrame)
    );
}

#[test]
fn map_to_refuses_the_root_table_as_new_table() {
    let mut table = machine();
    let mut frames = handful(&[ROOT]);
    assert_eq!(
        table.map_to(page(0x5000), Frame { number: 1 }, EntryFlags::empty(), &mut frames),
        Err(PagingError::TableInUse)
    );
    // a table on the way to the page is refused as well
    let mut frames = handful(&[0x21, 0x21]);
    assert_eq!(
        table.map_to(page(0x5000), Frame { number: 1 }, EntryFlags::empty(), &mut frames),
        Err(PagingError::TableInUse)
    );
    // the root table still names itself
    assert_eq!(table.mapper.entry(&table.mapper.root_table(), 511), table_entry(ROOT));
}

#[test]
fn map_without_frames_is_refused() {
    let mut table = machine();
    let mut frames = handful(&[]);
    assert_eq!(
        table.map(page(0x5000), EntryFlags::empty(), &mut frames),
        Err(PagingError::OutOfFrames)
    );
    let mut frames = handful(&[3, 2, 1, 9]);
    assert_eq!(table.map(page(0x5000), EntryFlags::empty(), &mut frames), Ok(()));
    assert_eq!(table.translate(0x5000), Ok(Some(0x9000)));
}

#[test]
fn identity_map_maps_a_frame_to_its_own_address() {
    let mut table = machine();
    let mut frames = allocator();
    assert_eq!(
        table.identity_map(Frame { number: 0xb8 }, EntryFlags::from_bits_truncate(WRITABLE), &mut frames),
        Ok(())
    );
    assert_eq!(table.translate(0xb8000), Ok(Some(0xb8000)));
    assert_eq!(table.translate(0xb8fff), Ok(Some(0xb8fff)));
    // a frame whose address lies in the hole has no page
    assert_eq!(
        table.identity_map(Frame { number: 0x8_0000_0000 }, EntryFlags::empty(), &mut frames),
        Err(PagingError::NonCanonicalAddress)
    );
    assert_eq!(
        table.identity_map(Frame { number: FRAME_LIMIT }, EntryFlags::empty(), &mut frames),
        Err(PagingError::InvalidFrame)
    );
}

#[test]
fn unmap_gives_the_frame_back() {
    let mut table = machine();
    let mut frames = handful(&[3, 2, 1]);
    table.map_to(page(0x5000), Frame { number: 0x77 }, EntryFlags::empty(), &mut frames).unwrap();
    assert_eq!(table.unmap(page(0x5000), &mut frames), Ok(()));
    assert_eq!(frames.back, vec![0x77]);
    // the tables stay
    assert!(table.mapper.path(page(0x5000)).is_some());
    assert_eq!(table.map_to(page(0x5000), Frame { number: 0x78 }, EntryFlags::empty(), &mut frames), Ok(()));
}

#[test]
fn unmap_refuses_the_recursive_slot() {
    let mut table = machine();
    let mut frames = handful(&[]);
    // the last page of the address space is the root table itself
    let last = page(0xffff_ffff_ffff_f000);
    assert_eq!(table.translate_page(last), Ok(Some(Frame { number: ROOT })));
    assert_eq!(table.unmap(last, &mut frames), Err(PagingError::RecursiveSlot));
    assert_eq!(table.translate_page(last), Ok(Some(Frame { number: ROOT })));
}

#[test]
fn operations_need_the_recursive_slot() {
    let mut table = ActivePageTable::new(PhysicalMemory::new(), Frame { number: ROOT });
    let mut frames = allocator();
    assert_eq!(table.translate(0x5000), Err(PagingError::NoRecursiveMapping));
    assert_eq!(
        table.map_to(page(0x5000), Frame { number: 1 }, EntryFlags::empty(), &mut frames),
        Err(PagingError::NoRecursiveMapping)
    );
    assert_eq!(table.unmap(page(0x5000), &mut frames), Err(PagingError::NoRecursiveMapping));
}

/// A machine in which slot 1 of the table of level 3 for the lowest
/// addresses holds a huge page from `start` on, and slot 2 a table of level
/// 2 whose slot 3 holds a huge page from `start` on.
fn machine_with_huge_pages(start: u64) -> ActivePageTable {
    let mut table = machine();
    let p4 = table.mapper.root_table();
    table.mapper.set_entry(&p4, 0, table_entry(0x30));
    let p3 = Table::window(&Frame { number: 0x30 }, 0);
    let mut huge = Entry(0);
    huge.set(Frame { number: start }, EntryFlags::from_bits_truncate(PRESENT | HUGE_PAGE));
    table.mapper.set_entry(&p3, 1, huge);
    table.mapper.set_entry(&p3, 2, table_entry(0x31));
    let p2 = Table::window(&Frame { number: 0x31 }, 0);
    table.mapper.set_entry(&p2, 3, huge);
    table
}

#[test]
fn huge_page_of_one_gib_maps_its_whole_window() {
    let table = machine_with_huge_pages(0x4_0000 * 5);
    let window = 0x4000_0000u64;
    for offset in [0u64, 1, 0xfff, 0x1000, 0x12_3456, 0x3fff_ffff] {
        assert_eq!(table.translate(window + offset), Ok(Some(5 * window + offset)));
    }
    assert_eq!(table.translate(window - 1), Ok(None));
    assert_eq!(
        table.translate_page(page(window + 0x20_3000)),
        Ok(Some(Frame { number: 0x4_0000 * 5 + 512 + 3 }))
    );
}

#[test]
fn huge_page_of_two_mib_maps_its_whole_window() {
    let table = machine_with_huge_pages(0x200 * 7);
    let window = 2 * 0x4000_0000u64 + 3 * 0x20_0000;
    for offset in [0u64, 0xfff, 0x1000, 0x1f_ffff] {
        assert_eq!(table.translate(window + offset), Ok(Some(7 * 0x20_0000 + offset)));
    }
    assert_eq!(table.translate(window + 0x20_0000), Ok(None));
}

#[test]
fn huge_page_that_starts_off_its_size_is_refused() {
    // a multiple of 2 MiB that is no multiple of 1 GiB
    let table = machine_with_huge_pages(0x200 * 7);
    assert_eq!(table.translate(0x4000_0000), Err(PagingError::MisalignedHugePage));
    let table = machine_with_huge_pages(0x200 * 7 + 1);
    assert_eq!(
        table.translate(2 * 0x4000_0000 + 3 * 0x20_0000),
        Err(PagingError::MisalignedHugePage)
    );
}

#[test]
fn mapping_through_a_huge_page_is_refused() {
    let mut table = machine_with_huge_pages(0x4_0000 * 5);
    let mut frames = allocator();
    assert_eq!(
        table.map_to(page(0x4000_0000), Frame { number: 1 }, EntryFlags::empty(), &mut frames),
        Err(PagingError::HugePage)
    );
    assert_eq!(table.unmap(page(0x4000_0000), &mut frames), Err(PagingError::HugePage));
    assert_eq!(table.translate(0x4000_0000), Ok(Some(5 * 0x4000_0000)));
}

#[test]
fn table_addresses_follow_the_recursive_scheme() {
    let mut table = machine();
    let mut frames = handful(&[0x23, 0x22, 0x21]);
    table.map_to(page(0x5000), Frame { number: 1 }, EntryFlags::empty(), &mut frames).unwrap();
    let p4 = table.mapper.p4().unwrap();
    assert_eq!(p4.start_address(), 0xffff_ffff_ffff_f000);
    let memory = PhysicalMemory::new();
    // without an entry there is no table below
    assert_eq!(p4.next_table_address(&memory, 0), None);
    let mut memory = PhysicalMemory::new();
    memory.write(&Frame { number: ROOT }, 3, table_entry(0x40).0);
    memory.write(&Frame { number: 0x40 }, 7, table_entry(0x41).0);
    assert_eq!(p4.next_table_address(&memory, 3), Some(0xffff_ffff_ffe0_3000));
    let p3 = p4.next_table(&memory, 3).unwrap();
    assert_eq!(p3.frame(), Frame { number: 0x40 });
    assert_eq!(p3.start_address(), 0xffff_ffff_ffe0_3000);
    assert_eq!(p3.next_table_address(&memory, 7), Some(0xffff_ffff_c060_7000));
    assert!(p3.next_table(&memory, 8).is_none());
    // a huge page is no table
    let mut huge = Entry(0);
    huge.set(Frame { number: 0x200 }, EntryFlags::from_bits_truncate(PRESENT | HUGE_PAGE));
    memory.write(&Frame { number: 0x40 }, 9, huge.0);
    assert!(p3.next_table(&memory, 9).is_none());
}

#[test]
fn next_table_create_empties_the_new_table() {
    let mut memory = PhysicalMemory::new();
    memory.write(&Frame { number: 0x50 }, 17, 0xdead_beef);
    let p4 = Table::top(&Frame { number: ROOT }, &Frame { number: ROOT }, &Vec::new());
    let mut frames = handful(&[0x50]);
    let p3 = p4.next_table_create(&mut memory, 4, &mut frames).unwrap();
    assert_eq!(p3.frame(), Frame { number: 0x50 });
    assert_eq!(memory.read(&Frame { number: 0x50 }, 17), 0);
    assert_eq!(memory.read(&Frame { number: ROOT }, 4), table_entry(0x50).0);
    // the table is found again without a frame
    let again = p4.next_table_create(&mut memory, 4, &mut frames).unwrap();
    assert_eq!(again.frame(), Frame { number: 0x50 });
    assert_eq!(
        p4.install_table(&mut memory, 5, None).err(),
        Some(PagingError::OutOfFrames)
    );
    assert_eq!(
        p4.install_table(&mut memory, 5, Some(Frame { number: ROOT })).err(),
        Some(PagingError::TableInUse)
    );
}

#[test]
fn temporary_page_maps_and_unmaps() {
    let mut table = machine();
    let mut frames = allocator();
    let mut temporary_page = TemporaryPage::new(Page::from_number(0xcafebabe).unwrap(), &mut frames);
    // the pool took the three lowest frames
    assert_eq!(frames.allocate_frame(), Some(Frame { number: 0x103 }));
    let address = temporary_page.map(Frame { number: 0x60 }, &mut table).unwrap();
    assert_eq!(address, 0xcafebabe000);
    assert_eq!(table.translate(0xcafebabe123), Ok(Some(0x60123)));
    // while the page is mapped, its tables are pinned
    assert!(table.mapper.is_pinned(&Frame { number: 0x100 }));
    assert!(table.mapper.is_pinned(&Frame { number: 0x102 }));
    assert_eq!(
        temporary_page.map(Frame { number: 0x61 }, &mut table),
        Err(PagingError::PageAlreadyMapped)
    );
    assert_eq!(temporary_page.unmap(&mut table), Ok(()));
    assert!(!table.mapper.is_pinned(&Frame { number: 0x100 }));
    assert_eq!(table.translate(0xcafebabe123), Ok(None));
    assert_eq!(temporary_page.unmap(&mut table), Err(PagingError::PageNotMapped));
    // the tables are there now: the window opens without the pool
    let window = temporary_page.map_table_frame(Frame { number: 0x61 }, &mut table).unwrap();
    assert_eq!(window.frame(), Frame { number: 0x61 });
    assert_eq!(window.start_address(), 0xcafebabe000);
}

#[test]
fn inactive_table_is_empty_but_for_its_recursive_slot() {
    let mut table = machine();
    let mut frames = allocator();
    let mut temporary_page = TemporaryPage::new(Page::from_number(0xcafebabe).unwrap(), &mut frames);
    table.mapper.set_entry(&Table::window(&Frame { number: 0x70 }, 0), 12, Entry(0xfff));
    let new_table =
        InactivePageTable::new(Frame { number: 0x70 }, &mut table, &mut temporary_page).unwrap();
    assert_eq!(new_table.p4_frame(), Frame { number: 0x70 });
    let top = Table::window(&Frame { number: 0x70 }, 0);
    for index in 0..511 {
        assert_eq!(table.mapper.entry(&top, index).0, 0);
    }
    assert_eq!(table.mapper.entry(&top, 511), table_entry(0x70));
    assert_eq!(table.translate(0xcafebabe000), Ok(None));
    // the root table in force is no frame for a new address space
    assert_eq!(
        InactivePageTable::new(Frame { number: ROOT }, &mut table, &mut temporary_page).err(),
        Some(PagingError::TableInUse)
    );
    assert_eq!(
        InactivePageTable::new(Frame { number: FRAME_LIMIT }, &mut table, &mut temporary_page).err(),
        Some(PagingError::InvalidFrame)
    );
}

#[test]
fn with_notes_the_flushes() {
    let mut table = machine();
    let mut frames = allocator();
    let mut temporary_page = TemporaryPage::new(Page::from_number(0xcafebabe).unwrap(), &mut frames);
    let frame = frames.allocate_frame().unwrap();
    let mut new_table = InactivePageTable::new(frame, &mut table, &mut temporary_page).unwrap();
    table.mapper.take_flushes();
    assert_eq!(table.with(&mut new_table, &mut temporary_page, |_| {}), Ok(()));
    assert_eq!(
        table.mapper.take_flushes(),
        vec![TlbFlush::All, TlbFlush::All, TlbFlush::Page(0xcafebabe000)]
    );
    assert_eq!(table.mapper.take_flushes(), Vec::new());
}

#[test]
fn with_needs_a_root_table_that_names_itself() {
    let mut memory = PhysicalMemory::new();
    // the recursive slot names another table
    memory.write(&Frame { number: ROOT }, 511, table_entry(0x11).0);
    memory.write(&Frame { number: 0x11 }, 511, table_entry(0x11).0);
    let mut table = ActivePageTable::new(memory, Frame { number: ROOT });
    let mut frames = allocator();
    let mut temporary_page = TemporaryPage::new(Page::from_number(0xcafebabe).unwrap(), &mut frames);
    let mut new_table =
        InactivePageTable::new(Frame { number: 0x70 }, &mut table, &mut temporary_page).unwrap();
    assert_eq!(
        table.with(&mut new_table, &mut temporary_page, |_| {}),
        Err(PagingError::NoRecursiveMapping)
    );
}

fn boot_information() -> BootInformation {
    BootInformation {
        start_address: 0x9000,
        end_address: 0xa800,
        memory_areas: Some(vec![MemoryArea { base_addr: 0x100000, length: 0x8000000 }]),
        elf_sections: Some(vec![
            ElfSection { addr: KERNEL_OFFSET + 0x10000, size: 0x2100, flags: 0x6 },
            ElfSection { addr: KERNEL_OFFSET + 0x20000, size: 0x1000, flags: 0x3 },
            ElfSection { addr: 0x1234, size: 0x1000, flags: 0x0 },
        ]),
        modules: vec![ModuleTag { start: 0xa000, end: 0xc000 }],
    }
}

#[test]
fn init_gives_the_pages_the_flags_of_their_sections() {
    let table = machine();
    let mut frames = allocator();
    let table = remap::init(table, &mut frames, &boot_information()).unwrap();
    let (_, _, code) = table.mapper.path(page(KERNEL_OFFSET + 0x11000)).unwrap();
    let code_entry = table.mapper.entry(&Table::window(&code, 0), 0x11);
    assert_eq!(code_entry.0, 0x11000 | PRESENT);
    let (_, _, data) = table.mapper.path(page(KERNEL_OFFSET + 0x20000)).unwrap();
    let data_entry = table.mapper.entry(&Table::window(&data, 0), 0x20);
    assert_eq!(data_entry.0, 0x20000 | PRESENT | WRITABLE | NO_EXECUTE);
    let (_, _, low) = table.mapper.path(page(0xb8000)).unwrap();
    assert_eq!(table.mapper.entry(&Table::window(&low, 0), 0xb8).0, 0xb8000 | PRESENT | WRITABLE);
    assert_eq!(table.mapper.entry(&Table::window(&low, 0), 0x9).0, 0x9000 | PRESENT);
    // the new root table names itself, and nothing is pinned any more
    assert_eq!(table.mapper.entry(&table.mapper.root_table(), 511), table_entry(table.mapper.root_frame().number));
    assert!(!table.mapper.is_pinned(&low));
}

#[test]
fn init_refuses_boot_information_it_cannot_use() {
    let mut missing = boot_information();
    missing.elf_sections = None;
    assert_eq!(remap::init(machine(), &mut allocator(), &missing).err(), Some(PagingError::MissingBootTag));
    let mut misaligned = boot_information();
    misaligned.elf_sections = Some(vec![ElfSection { addr: KERNEL_OFFSET + 0x10800, size: 0x100, flags: 0x2 }]);
    assert_eq!(
        remap::init(machine(), &mut allocator(), &misaligned).err(),
        Some(PagingError::MisalignedSection)
    );
    let mut low = boot_information();
    low.elf_sections = Some(vec![ElfSection { addr: 0x10000, size: 0x100, flags: 0x2 }]);
    assert_eq!(
        remap::init(machine(), &mut allocator(), &low).err(),
        Some(PagingError::SectionOutsideKernel)
    );
    let mut empty = boot_information();
    empty.end_address = 0;
    assert_eq!(remap::init(machine(), &mut allocator(), &empty).err(), Some(PagingError::InvalidRange));
    // two sections in one page
    let mut twice = boot_information();
    twice.elf_sections = Some(vec![
        ElfSection { addr: KERNEL_OFFSET + 0x10000, size: 0x100, flags: 0x2 },
        ElfSection { addr: KERNEL_OFFSET + 0x10000, size: 0x100, flags: 0x2 },
    ]);
    assert_eq!(
        remap::init(machine(), &mut allocator(), &twice).err(),
        Some(PagingError::PageAlreadyMapped)
    );
    // the old root table is not part of the kernel image
    let mut unseen = boot_information();
    unseen.elf_sections = Some(vec![ElfSection { addr: KERNEL_OFFSET + 0x20000, size: 0x100, flags: 0x2 }]);
    assert_eq!(remap::init(machine(), &mut allocator(), &unseen).err(), Some(PagingError::PageNotMapped));
    assert_eq!(
        remap::init(machine(), &mut handful(&[]), &boot_information()).err(),
        Some(PagingError::OutOfFrames)
    );
}

#[test]
fn pool_takes_three_frames_where_there_are_three() {
    let mut frames = handful(&[1, 2, 3, 4, 5]);
    let mut pool = TinyAllocator::new(&mut frames);
    // the allocator lost the three frames of the pool and no others
    assert_eq!(frames.frames, vec![1, 2]);
    assert_eq!(pool.allocate_frame(), Some(Frame { number: 5 }));
    assert_eq!(pool.allocate_frame(), Some(Frame { number: 4 }));
    assert_eq!(pool.allocate_frame(), Some(Frame { number: 3 }));
    assert_eq!(pool.allocate_frame(), None);
}

#[test]
fn pool_takes_what_the_allocator_has() {
    let mut frames = handful(&[9]);
    let mut pool = TinyAllocator::new(&mut frames);
    assert!(frames.frames.is_empty());
    assert_eq!(pool.allocate_frame(), Some(Frame { number: 9 }));
    assert_eq!(pool.allocate_frame(), None);
    let mut none = handful(&[]);
    let mut empty = TinyAllocator::new(&mut none);
    assert_eq!(empty.allocate_frame(), None);
}

#[test]
fn pool_holds_each_frame_once_and_three_at_most() {
    let mut pool = TinyAllocator::holding(
        Some(Frame { number: 7 }),
        None,
        Some(Frame { number: 7 }),
    );
    assert_eq!(pool.allocate_frame(), Some(Frame { number: 7 }));
    assert_eq!(pool.allocate_frame(), None);
    // a frame that is in the pool is not put in again
    pool.deallocate_frame(Frame { number: 1 });
    pool.deallocate_frame(Frame { number: 1 });
    pool.deallocate_frame(Frame { number: 2 });
    pool.deallocate_frame(Frame { number: 3 });
    // the pool is full: a fourth frame is ignored
    pool.deallocate_frame(Frame { number: 4 });
    assert_eq!(pool.allocate_frame(), Some(Frame { number: 1 }));
    assert_eq!(pool.allocate_frame(), Some(Frame { number: 2 }));
    assert_eq!(pool.allocate_frame(), Some(Frame { number: 3 }));
    assert_eq!(pool.allocate_frame(), None);
    // with room again, the frame is taken
    pool.deallocate_frame(Frame { number: 4 });
    assert_eq!(pool.allocate_frame(), Some(Frame { number: 4 }));
}

#[test]
fn init_looks_at_the_boot_information_before_it_takes_a_frame() {
    let mut missing = boot_information();
    missing.elf_sections = None;
    let mut frames = handful(&[0x300, 0x301]);
    assert_eq!(remap::init(machine(), &mut frames, &missing).err(), Some(PagingError::MissingBootTag));
    assert_eq!(frames.frames, vec![0x300, 0x301]);
    // without frames, and with boot information that is in order, frames are what is missing
    let mut none = handful(&[]);
    assert_eq!(
        remap::init(machine(), &mut none, &boot_information()).err(),
        Some(PagingError::OutOfFrames)
    );
}

#[test]
fn init_refuses_a_root_table_above_the_kernel_frames() {
    let root = 0x800_0000;
    let mut memory = PhysicalMemory::new();
    memory.write(&Frame { number: root }, 511, table_entry(root).0);
    let table = ActivePageTable::new(memory, Frame { number: root });
    let mut frames = allocator();
    assert_eq!(
        remap::init(table, &mut frames, &boot_information()).err(),
        Some(PagingError::InvalidRange)
    );
    // no frame was taken
    assert_eq!(frames.allocate_frame(), Some(Frame { number: 0x100 }));
}

#[test]
fn with_runs_the_closure_once_on_the_other_table() {
    let mut table = machine();
    let mut frames = allocator();
    let mut temporary_page = TemporaryPage::new(page(0xcafebabe000), &mut frames);
    let frame = frames.allocate_frame().unwrap();
    let number = frame.number;
    let mut new_table = InactivePageTable::new(frame, &mut table, &mut temporary_page).unwrap();
    let mut runs = 0;
    let mut slot = 0;
    let result = table.with(&mut new_table, &mut temporary_page, |active| {
        runs += 1;
        slot = active.mapper.entry(&active.mapper.root_table(), 511).0;
    });
    assert_eq!(result, Ok(()));
    assert_eq!(runs, 1);
    assert_eq!(slot, table_entry(number).0);
    // afterwards the temporary page is mapped to nothing
    assert_eq!(table.translate(0xcafebabe000), Ok(None));
    assert_eq!(new_table.p4_frame(), Frame { number });
    // a closure is not run where the table cannot be entered
    let mut broken = ActivePageTable::new(PhysicalMemory::new(), Frame { number: ROOT });
    let mut ran = false;
    assert_eq!(
        broken.with(&mut new_table, &mut temporary_page, |_| ran = true),
        Err(PagingError::NoRecursiveMapping)
    );
    assert!(!ran);
}

#[test]
fn temporary_page_maps_with_a_full_pool_or_with_its_tables() {
    // no table is there: a pool of three frames is enough
    let mut table = machine();
    let mut three = handful(&[0x31, 0x32, 0x33]);
    let mut temporary_page = TemporaryPage::new(page(0xcafebabe000), &mut three);
    assert_eq!(temporary_page.map(Frame { number: 0x60 }, &mut table), Ok(0xcafebabe000));
    assert_eq!(temporary_page.unmap(&mut table), Ok(()));
    // the tables are there: no pool is needed
    let mut none = handful(&[]);
    let mut other = TemporaryPage::new(page(0xcafebabe000), &mut none);
    assert_eq!(other.map(Frame { number: 0x61 }, &mut table), Ok(0xcafebabe000));
    assert_eq!(table.translate(0xcafebabe000), Ok(Some(0x61000)));
    assert_eq!(other.unmap(&mut table), Ok(()));
    // a pool of two frames is not enough where three tables are missing
    let mut fresh = machine();
    let mut two = handful(&[0x31, 0x32]);
    let mut short = TemporaryPage::new(page(0xcafebabe000), &mut two);
    assert_eq!(short.map(Frame { number: 0x60 }, &mut fresh), Err(PagingError::OutOfFrames));
}

#[test]
fn map_backs_the_page_with_the_first_frame_handed_out() {
    let mut table = machine();
    // the allocator hands out 9 first, then 1, 2 and 3
    let mut frames = handful(&[3, 2, 1, 9]);
    assert_eq!(table.map(page(0x5000), EntryFlags::empty(), &mut frames), Ok(()));
    assert_eq!(table.translate(0x5abc), Ok(Some(0x9abc)));
    // without a frame nothing is written
    let mut empty = machine();
    let mut none = handful(&[]);
    assert_eq!(empty.map(page(0x5000), EntryFlags::empty(), &mut none), Err(PagingError::OutOfFrames));
    assert_eq!(empty.mapper.ram().written_frames(), machine().mapper.ram().written_frames());
    assert_eq!(empty.translate(0x5000), Ok(None));
}

#[test]
fn identity_map_uses_the_tables_that_are_there() {
    let mut table = machine();
    let mut frames = handful(&[3, 2, 1]);
    assert_eq!(table.identity_map(Frame { number: 0x5 }, EntryFlags::empty(), &mut frames), Ok(()));
    // the neighbour has its table: no frame is needed
    let mut none = handful(&[]);
    assert_eq!(table.identity_map(Frame { number: 0x6 }, EntryFlags::empty(), &mut none), Ok(()));
    assert_eq!(table.translate(0x6010), Ok(Some(0x6010)));
    assert_eq!(
        table.identity_map(Frame { number: 0x6 }, EntryFlags::empty(), &mut none),
        Err(PagingError::PageAlreadyMapped)
    );
}
