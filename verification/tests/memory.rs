use kernel::memory::Frame;
use kernel::memory::Page;
use kernel::memory::KERNEL_HEAP_SIZE;
use kernel::memory::KERNEL_HEAP_START;
use kernel::memory::KERNEL_OFFSET;
use kernel::memory::PAGE_SIZE;
use kernel::memory::RECURSIVE_PAGE_OFFSET;

#[test]
fn frame_holds_its_address() {
    for address in [0u64, 1, 0xfff, 0x1000, 0x1001, 0xb8000, 0xdead_beef, u64::MAX] {
        let frame = Frame::containing_address(address);
        assert_eq!(frame.number, address / 0x1000);
        let start = frame.start_address();
        assert!(start <= address);
        assert!(address - start < PAGE_SIZE);
    }
}

#[test]
fn frame_of_an_address_by_both_names() {
    assert_eq!(Frame::for_address(0x5432), Frame { number: 5 });
    assert_eq!(Frame::containing_address(0x5432), Frame { number: 5 });
    assert_eq!(Frame { number: 5 }.address(), 0x5000);
    assert_eq!(Frame { number: 5 }.start_address(), 0x5000);
    assert_eq!(Frame { number: 5 }.clone(), Frame { number: 5 });
}

#[test]
fn frame_range_runs_upwards() {
    let mut frames = Frame::range_inclusive(Frame { number: 3 }, Frame { number: 5 });
    assert_eq!(frames.next(), Some(Frame { number: 3 }));
    assert_eq!(frames.next(), Some(Frame { number: 4 }));
    assert_eq!(frames.next(), Some(Frame { number: 5 }));
    assert_eq!(frames.next(), None);
    assert_eq!(frames.next(), None);
    let mut empty = Frame::range_inclusive(Frame { number: 5 }, Frame { number: 3 });
    assert_eq!(empty.next(), None);
}

#[test]
fn page_is_refused_for_an_address_in_the_hole() {
    assert!(Page::containing_address(0x0000_7fff_ffff_ffff).is_some());
    assert!(Page::containing_address(0x0000_8000_0000_0000).is_none());
    assert!(Page::containing_address(0xffff_7fff_ffff_ffff).is_none());
    assert!(Page::containing_address(0xffff_8000_0000_0000).is_some());
    assert!(Page::from_number(0x7_ffff_ffff).is_some());
    assert!(Page::from_number(0x8_0000_0000).is_none());
    assert!(Page::from_number(0xf_fff7_ffff_ffff).is_none());
    assert!(Page::from_number(0xf_fff8_0000_0000).is_some());
    assert!(Page::from_number(0xf_ffff_ffff_ffff).is_some());
    assert!(Page::from_number(0x10_0000_0000_0000).is_none());
}

#[test]
fn page_starts_where_its_index_says() {
    let page = Page::containing_address(0xffff_ff00_0012_3456).unwrap();
    assert_eq!(page.number(), 0xf_ffff_f000_0123);
    assert_eq!(page.start_address(), 0xffff_ff00_0012_3000);
    assert_eq!(Page::containing_address(0x1fff).unwrap().start_address(), 0x1000);
}

#[test]
fn page_indices_are_the_nine_bit_groups() {
    // slots 1, 2, 3 and 4 of the four levels
    let address = (1u64 << 39) | (2 << 30) | (3 << 21) | (4 << 12) | 0x567;
    let page = Page::containing_address(address).unwrap();
    assert_eq!(page.p4_index(), 1);
    assert_eq!(page.p3_index(), 2);
    assert_eq!(page.p2_index(), 3);
    assert_eq!(page.p1_index(), 4);
    let kernel = Page::containing_address(KERNEL_OFFSET).unwrap();
    assert_eq!(kernel.p4_index(), 510);
    assert_eq!(kernel.p3_index(), 0);
    let recursive = Page::containing_address(RECURSIVE_PAGE_OFFSET).unwrap();
    assert_eq!(recursive.p4_index(), 511);
    let last = Page::containing_address(u64::MAX).unwrap();
    assert_eq!(
        (last.p4_index(), last.p3_index(), last.p2_index(), last.p1_index()),
        (511, 511, 511, 511)
    );
    let temporary = Page::from_number(0xcafebabe).unwrap();
    assert_eq!(
        (temporary.p4_index(), temporary.p3_index(), temporary.p2_index(), temporary.p1_index()),
        (25, 191, 349, 190)
    );
}

#[test]
fn page_range_runs_upwards() {
    let first = Page::from_number(7).unwrap();
    let last = Page::from_number(9).unwrap();
    let mut pages = Page::range_inclusive(first, last);
    let mut copy = pages.clone();
    assert_eq!(pages.next().map(|page| page.number()), Some(7));
    assert_eq!(pages.next().map(|page| page.number()), Some(8));
    assert_eq!(pages.next().map(|page| page.number()), Some(9));
    assert!(pages.next().is_none());
    // the copy walks on its own
    assert_eq!(copy.nth(1).map(|page| page.number()), Some(8));
    assert_eq!(copy.nth(0).map(|page| page.number()), Some(9));
    assert!(copy.nth(0).is_none());
    let mut short = Page::range_inclusive(first, last);
    assert!(short.nth(3).is_none());
    assert!(short.next().is_none());
}

#[test]
fn heap_lies_in_the_kernel_half() {
    assert_eq!(KERNEL_HEAP_START, KERNEL_OFFSET + 0x40_0000_0000);
    assert_eq!(KERNEL_HEAP_SIZE, 128 * 1024 * 1024);
    assert_eq!(RECURSIVE_PAGE_OFFSET, 0u64.wrapping_sub(0x80_0000_0000));
    assert_eq!(KERNEL_OFFSET, RECURSIVE_PAGE_OFFSET - 0x80_0000_0000);
}
