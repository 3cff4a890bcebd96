use kernel::memory::paging::entry::Entry;
use kernel::memory::paging::entry::EntryFlags;
use kernel::memory::paging::entry::ALL_FLAGS;
use kernel::memory::paging::entry::GLOBAL;
use kernel::memory::paging::entry::HUGE_PAGE;
use kernel::memory::paging::entry::NO_EXECUTE;
use kernel::memory::paging::entry::PRESENT;
use kernel::memory::paging::entry::USER_ACCESSIBLE;
use kernel::memory::paging::entry::WRITABLE;
use kernel::memory::Frame;

#[test]
fn flags_keep_to_the_flag_bits() {
    assert_eq!(EntryFlags::empty().bits(), 0);
    assert_eq!(EntryFlags::from_bits_truncate(PRESENT | WRITABLE).bits(), 3);
    assert_eq!(EntryFlags::from_bits_truncate(u64::MAX).bits(), ALL_FLAGS);
    assert_eq!(EntryFlags::from_bits_truncate(0x1000).bits(), 0);
    assert_eq!(EntryFlags::from_bits_truncate(NO_EXECUTE).bits(), 1 << 63);
    assert_eq!(ALL_FLAGS, 0x8000_0000_0000_01ff);
}

#[test]
fn flags_join_and_contain() {
    let present = EntryFlags::from_bits_truncate(PRESENT);
    let writable = EntryFlags::from_bits_truncate(WRITABLE);
    let both = present.union(writable);
    assert_eq!(both.bits(), PRESENT | WRITABLE);
    assert!(both.contains(present));
    assert!(both.contains(writable));
    assert!(both.contains(both));
    assert!(!present.contains(both));
    assert!(!both.contains(EntryFlags::from_bits_truncate(HUGE_PAGE)));
    assert!(present.contains(EntryFlags::empty()));
}

#[test]
fn flags_of_a_section() {
    // attribute bits: 1 writable, 2 allocated, 4 executable
    assert_eq!(EntryFlags::from_elf_section_flags(0x0).bits(), NO_EXECUTE);
    assert_eq!(EntryFlags::from_elf_section_flags(0x2).bits(), PRESENT | NO_EXECUTE);
    assert_eq!(EntryFlags::from_elf_section_flags(0x3).bits(), PRESENT | WRITABLE | NO_EXECUTE);
    assert_eq!(EntryFlags::from_elf_section_flags(0x6).bits(), PRESENT);
    assert_eq!(EntryFlags::from_elf_section_flags(0x7).bits(), PRESENT | WRITABLE);
    assert_eq!(EntryFlags::from_elf_section_flags(0x4).bits(), 0);
}

#[test]
fn entry_packs_frame_and_flags() {
    let mut entry = Entry(0);
    assert!(entry.is_unused());
    assert_eq!(entry.frame(), None);
    entry.set(
        Frame { number: 0xabcde },
        EntryFlags::from_bits_truncate(PRESENT | WRITABLE | NO_EXECUTE),
    );
    assert_eq!(entry.0, 0x8000_0000_abcd_e003);
    assert!(!entry.is_unused());
    assert!(entry.is_present());
    assert!(!entry.is_huge());
    assert_eq!(entry.frame(), Some(Frame { number: 0xabcde }));
    assert_eq!(entry.flags().bits(), PRESENT | WRITABLE | NO_EXECUTE);
    entry.set_unused();
    assert_eq!(entry.0, 0);
}

#[test]
fn entry_without_the_present_flag_names_no_frame() {
    let mut entry = Entry(0);
    entry.set(Frame { number: 7 }, EntryFlags::from_bits_truncate(WRITABLE | GLOBAL));
    assert!(!entry.is_unused());
    assert_eq!(entry.frame(), None);
    assert_eq!(entry.flags().bits(), WRITABLE | GLOBAL);
}

#[test]
fn entry_holds_the_largest_frame() {
    let mut entry = Entry(0);
    entry.set(
        Frame { number: 0xff_ffff_ffff },
        EntryFlags::from_bits_truncate(PRESENT | USER_ACCESSIBLE | HUGE_PAGE),
    );
    assert_eq!(entry.0, 0x000f_ffff_ffff_f085);
    assert_eq!(entry.frame(), Some(Frame { number: 0xff_ffff_ffff }));
    assert!(entry.is_huge());
    // bits that are no flag and no address are not read as either
    let odd = Entry(0x7ff0_0000_0000_0e01);
    assert_eq!(odd.frame(), Some(Frame { number: 0 }));
    assert_eq!(odd.flags().bits(), PRESENT);
}
