//! The address space that the kernel runs in, built once at boot.
//!
//! The boot loader leaves the kernel in an address space of its own making.
//! `init` builds a fresh one and puts it in force: every section of the boot
//! image that occupies memory is mapped at its address in the upper half to
//! the frames it was loaded into, with the permissions that the section
//! declares; the text display buffer, the boot information and the modules
//! are mapped at their physical addresses.  The page through which the old
//! root table was seen is left unmapped, so that a stray access to it faults.

use vstd::prelude::*;
use crate::memory::Frame;
use crate::memory::KERNEL_OFFSET;
use crate::memory::PAGE_SIZE;
use crate::memory::Page;
use crate::memory::RECURSIVE_PAGE_OFFSET;
use crate::memory::VGA_BUFFER;
use crate::memory::boot_info::BootInformation;
use crate::memory::boot_info::ElfSection;
use crate::memory::boot_info::ModuleTag;
use crate::memory::frame_allocator::FrameAllocator;
use crate::memory::is_page_number;
use crate::memory::p1_index_of;
use crate::memory::p2_index_of;
use crate::memory::p3_index_of;
use crate::memory::p4_index_of;
use crate::memory::paging::ActivePageTable;
use crate::memory::paging::InactivePageTable;
use crate::memory::paging::PagingError;
use crate::memory::paging::entered;
use crate::memory::paging::entry::EntryFlags;
use crate::memory::paging::entry::FRAME_LIMIT;
use crate::memory::paging::entry::PRESENT;
use crate::memory::paging::entry::WRITABLE;
use crate::memory::paging::entry::encode;
use crate::memory::paging::entry::lemma_encode_decode;
use crate::memory::paging::entry::lemma_flag_bits;
use crate::memory::paging::entry::lemma_word_frame_bound;
use crate::memory::paging::entry::section_entry_bits;
use crate::memory::paging::entry::word_frame;
use crate::memory::paging::entry::word_present;
use crate::memory::paging::layout::Places;
use crate::memory::paging::layout::grown_places;
use crate::memory::paging::layout::is_tree;
use crate::memory::paging::layout::layered;
use crate::memory::paging::layout::lemma_foreign_write_keeps_tree;
use crate::memory::paging::layout::lemma_leaf_place;
use crate::memory::paging::layout::lemma_leaf_write_keeps_tree;
use crate::memory::paging::layout::lemma_map_keeps_tree;
use crate::memory::paging::layout::lemma_mapped_footprint;
use crate::memory::paging::layout::place;
use crate::memory::paging::layout::settled;
use crate::memory::paging::layout::tree_space;
use crate::memory::paging::mapper::leaf_table;
use crate::memory::paging::mapper::leaf_table_from;
use crate::memory::paging::mapper::path_tables;
use crate::memory::paging::mapper::taken_between;
use crate::memory::paging::mapper::top_table;
use crate::memory::paging::mapper::translation;
use crate::memory::paging::table::child;
use crate::memory::paging::table::lemma_table_flags;
use crate::memory::paging::table_entry;
use crate::memory::paging::table_error;
use crate::memory::paging::temp_page::TemporaryPage;
use crate::memory::ram::Words;

verus! {

/// Index of the page that `init` sets aside as temporary page.
pub const TEMPORARY_PAGE: u64 = 0xcafebabe;

/// Index of the page at `KERNEL_OFFSET`.
pub const KERNEL_OFFSET_PAGE: u64 = 0xf_ffff_f000_0000;

/// Frames below this limit are seen by the kernel through a page of its own
/// part of the address space.
pub const KERNEL_FRAMES: u64 = 0x800_0000;

/// Whether the section lies, page-aligned, in the part of the address space
/// that belongs to the kernel image.
pub open spec fn section_in_kernel(section: ElfSection) -> bool {
    &&& section.addr % PAGE_SIZE == 0
    &&& KERNEL_OFFSET <= section.addr
    &&& section.addr + section.size <= RECURSIVE_PAGE_OFFSET
}

/// Whether the page with index `page` holds a byte of `section`.
pub open spec fn in_section(section: ElfSection, page: u64) -> bool {
    section.size > 0 && section.addr / PAGE_SIZE <= page <= (section.addr + section.size - 1)
        / PAGE_SIZE as int
}

/// The entry that the page with index `page` of `section` is mapped with:
/// it names the frame that lies as far above frame 0 as the page lies above
/// `KERNEL_OFFSET`, with the permissions of the section.
pub open spec fn section_leaf(section: ElfSection, page: u64) -> u64 {
    encode((page - KERNEL_OFFSET_PAGE) as u64, section_entry_bits(section.flags) | PRESENT)
}

/// Whether `more` holds every entry of `done`.
pub open spec fn extends(done: Map<u64, u64>, more: Map<u64, u64>) -> bool {
    forall|page: u64| #[trigger]
        done.contains_key(page) ==> more.contains_key(page) && more[page] == done[page]
}

/// Whether the address space below the top table in frame `top`, which the
/// recursive slot of the root table in force names, is a tree with the
/// places `places` in which every page of `done` has the entry that `done`
/// gives it.  No table of the tree lies in a frame that the allocator has
/// available, that is pinned or that holds the root table in force; and
/// since the memory was `start`, only frames of the tree were written to.
pub open spec fn building<A: FrameAllocator>(
    table: ActivePageTable,
    allocator: A,
    top: u64,
    start: Words,
    places: Places,
    done: Map<u64, u64>,
) -> bool {
    let words = table.mapper.words();
    &&& top_table(words, table.mapper.root()) == Some(top)
    &&& words[(top, 511)] == table_entry(top)
    &&& layered(words, top, places)
    &&& forall|t: u64| #[trigger]
        places.contains_key(t) ==> !allocator.available(t) && !table.mapper.pinned().contains(t)
            && t != table.mapper.root()
    &&& forall|k: (u64, int)|
        0 <= k.1 < 512 && #[trigger] words[k] != start[k] ==> places.contains_key(k.0)
    &&& forall|page: u64| #[trigger]
        done.contains_key(page) ==> is_page_number(page) && p4_index_of(page) != 511
            && word_present(done[page]) && settled(words, top, page, done[page]) && in_place(
            page,
            word_frame(done[page]),
        )
    &&& forall|page: u64, entry: u64|
        is_page_number(page) && p4_index_of(page) != 511 && word_present(entry) && #[trigger] settled(
            words,
            top,
            page,
            entry,
        ) ==> done.contains_key(page)
}

/// How many pages the lower half of the address space has: the index of
/// the first page whose address is not canonical.
pub const LOWER_HALF_PAGES: u64 = 0x8_0000_0000;

/// Whether the frame with index `frame` is one that the kernel maps the
/// page with index `page` to: the frame with the index of the page, or the
/// frame that lies as far above frame 0 as the page lies above
/// `KERNEL_OFFSET`.
pub open spec fn in_place(page: u64, frame: u64) -> bool {
    (page < FRAME_LIMIT && frame == page) || (page >= KERNEL_OFFSET_PAGE && frame == page
        - KERNEL_OFFSET_PAGE)
}

/// Whether the address space below the top table in frame `top` is a tree
/// in which every page of `done` has the entry that `done` gives it.
pub open spec fn progress<A: FrameAllocator>(
    table: ActivePageTable,
    allocator: A,
    top: u64,
    start: Words,
    done: Map<u64, u64>,
) -> bool {
    exists|places: Places| #[trigger] building(table, allocator, top, start, places, done)
}

/// Maps `page` to `frame` in the tree that is being built.
#[verifier::rlimit(30)]
fn map_one<A: FrameAllocator>(
    active_table: &mut ActivePageTable,
    page: Page,
    frame: Frame,
    flags: EntryFlags,
    allocator: &mut A,
    Ghost(top): Ghost<u64>,
    Ghost(start): Ghost<Words>,
    Ghost(done): Ghost<Map<u64, u64>>,
) -> (result: Result<(), PagingError>)
    requires
        progress(*old(active_table), *old(allocator), top, start, done),
        p4_index_of(page.index()) != 511,
        in_place(page.index(), frame.number),
    ensures
        final(active_table).mapper.root() == old(active_table).mapper.root(),
        final(active_table).mapper.pending() == old(active_table).mapper.pending(),
        final(active_table).mapper.pinned() == old(active_table).mapper.pinned(),
        forall|g: u64| #[trigger] final(allocator).available(g) ==> old(allocator).available(g),
        done.contains_key(page.index()) ==> result == Err::<(), PagingError>(
            PagingError::PageAlreadyMapped,
        ),
        leaf_table_from(old(active_table).mapper.words(), top, page.index()) matches Some(p1) ==> {
            &&& *final(allocator) == *old(allocator)
            &&& old(active_table).mapper.words()[(p1, p1_index_of(page.index()))] != 0 ==> result
                == Err::<(), PagingError>(PagingError::PageAlreadyMapped)
            &&& old(active_table).mapper.words()[(p1, p1_index_of(page.index()))] == 0
                ==> result.is_ok()
        },
        result matches Err(e) ==> e == PagingError::PageAlreadyMapped || e == PagingError::HugePage
            || e == PagingError::OutOfFrames || e == PagingError::TableInUse || e
            == PagingError::InvalidFrame,
        result.is_ok() ==> !done.contains_key(page.index()) && progress(
            *final(active_table),
            *final(allocator),
            top,
            start,
            done.insert(page.index(), encode(frame.number, flags.value() | PRESENT)),
        ),
{
    let ghost places = choose|places: Places| #[trigger]
        building(*old(active_table), *old(allocator), top, start, places, done);
    let ghost before = active_table.mapper.words();
    let ghost number = frame.number;
    let bits = flags.bits();
    let index = page.number();
    proof {
        assert(building(*old(active_table), *old(allocator), top, start, places, done));
        assert(frame.number < FRAME_LIMIT);
        assert(leaf_table(before, old(active_table).mapper.root(), index) == leaf_table_from(
            before,
            top,
            index,
        ));
        if done.contains_key(index) {
            assert(settled(before, top, index, done[index]));
            lemma_word_frame_bound(0);
            assert(done[index] != 0);
        }
    }
    proof {
        active_table.mapper.lemma_words_total();
    }
    let result = active_table.mapper.map_to(page, frame, flags, allocator);
    proof {
        if result.is_ok() {
            let after = active_table.mapper.words();
            let leaf = encode(number, flags.value() | PRESENT);
            let tables = path_tables(after, top, index);
            let barred = old(active_table).mapper.pinned().insert(old(active_table).mapper.root());
            let taken = taken_between(*old(allocator), *allocator);
            lemma_flag_bits(bits, PRESENT);
            lemma_encode_decode(number, bits | PRESENT);
            lemma_word_frame_bound(0);
            lemma_map_keeps_tree(before, after, barred, top, places, index, leaf, tables, taken);
            let grown = grown_places(places, index, tables);
            let more = done.insert(index, leaf);
            if done.contains_key(index) {
                assert(settled(before, top, index, done[index]));
            }
            assert forall|other: u64| #[trigger] more.contains_key(other) implies is_page_number(
                other,
            ) && p4_index_of(other) != 511 && word_present(more[other]) && settled(
                after,
                top,
                other,
                more[other],
            ) && in_place(other, word_frame(more[other])) by {
                if other != index {
                    assert(settled(before, top, other, done[other]));
                }
            }
            assert forall|other: u64, entry: u64|
                is_page_number(other) && p4_index_of(other) != 511 && word_present(entry)
                    && #[trigger] settled(after, top, other, entry) implies more.contains_key(
                other,
            ) by {
                if other != index {
                    assert(settled(before, top, other, entry));
                }
            }
            assert(building(*active_table, *allocator, top, start, grown, more));
        }
    }
    result
}

/// Maps each page of `section`, which occupies memory, to the frame that
/// the page was loaded into: the page at `KERNEL_OFFSET` lies in frame 0.
#[verifier::loop_isolation(false)]
#[verifier::rlimit(30)]
fn map_section<A: FrameAllocator>(
    active_table: &mut ActivePageTable,
    section: &ElfSection,
    allocator: &mut A,
    Ghost(top): Ghost<u64>,
    Ghost(start): Ghost<Words>,
    Ghost(done): Ghost<Map<u64, u64>>,
) -> (result: (Result<(), PagingError>, Ghost<Map<u64, u64>>))
    requires
        progress(*old(active_table), *old(allocator), top, start, done),
    ensures
        final(active_table).mapper.root() == old(active_table).mapper.root(),
        final(active_table).mapper.pending() == old(active_table).mapper.pending(),
        final(active_table).mapper.pinned() == old(active_table).mapper.pinned(),
        forall|g: u64| #[trigger] final(allocator).available(g) ==> old(allocator).available(g),
        section.addr % PAGE_SIZE != 0 ==> result.0 == Err::<(), PagingError>(
            PagingError::MisalignedSection,
        ),
        section.addr % PAGE_SIZE == 0 && !section_in_kernel(*section) ==> result.0 == Err::<
            (),
            PagingError,
        >(PagingError::SectionOutsideKernel),
        result.0 matches Err(e) ==> table_error(e) || (e == PagingError::MisalignedSection
            && section.addr % PAGE_SIZE != 0) || (e == PagingError::SectionOutsideKernel
            && !section_in_kernel(*section)),
        result.0.is_ok() ==> {
            &&& progress(*final(active_table), *final(allocator), top, start, result.1@)
            &&& extends(done, result.1@)
            &&& section_mapped(result.1@, *section)
        },
{
    if section.addr % PAGE_SIZE != 0 {
        return (Err(PagingError::MisalignedSection), Ghost(done));
    }
    if section.addr < KERNEL_OFFSET || section.addr > RECURSIVE_PAGE_OFFSET || section.size
        > RECURSIVE_PAGE_OFFSET - section.addr {
        return (Err(PagingError::SectionOutsideKernel), Ghost(done));
    }
    if section.size == 0 {
        return (Ok(()), Ghost(done));
    }
    let flags = EntryFlags::from_elf_section_flags(section.flags);
    let start_page = match Page::containing_address(section.start_address()) {
        Some(page) => page,
        None => {
            return (Err(PagingError::NonCanonicalAddress), Ghost(done));
        },
    };
    let end_page = match Page::containing_address(section.end_address() - 1) {
        Some(page) => page,
        None => {
            return (Err(PagingError::NonCanonicalAddress), Ghost(done));
        },
    };
    let ghost first = start_page.index() as int;
    let ghost last = end_page.index() as int;
    let mut pages = Page::range_inclusive(start_page, end_page);
    let ghost mut more = done;
    let ghost mut next = first;
    loop
        invariant
            active_table.mapper.root() == old(active_table).mapper.root(),
            active_table.mapper.pending() == old(active_table).mapper.pending(),
            active_table.mapper.pinned() == old(active_table).mapper.pinned(),
            forall|g: u64| #[trigger] allocator.available(g) ==> old(allocator).available(g),
            first <= next <= last + 1,
            pages.remaining() == crate::memory::frame_range(next, last),
            progress(*active_table, *allocator, top, start, more),
            extends(done, more),
            forall|page: u64|
                first <= page < next ==> #[trigger] more.contains_key(page) && more[page]
                    == section_leaf(*section, page),
        decreases pages.remaining().len(),
    {
        match pages.next() {
            Some(page) => {
                let number = page.number();
                assert(number == next);
                let frame = Frame::containing_address(page.start_address() - KERNEL_OFFSET);
                assert(frame.number == number - KERNEL_OFFSET_PAGE);
                assert(in_place(number, frame.number));
                assert(p4_index_of(number) == 510);
                match map_one(
                    active_table,
                    page,
                    frame,
                    flags,
                    allocator,
                    Ghost(top),
                    Ghost(start),
                    Ghost(more),
                ) {
                    Ok(()) => {},
                    Err(e) => {
                        return (Err(e), Ghost(more));
                    },
                }
                proof {
                    more = more.insert(number, section_leaf(*section, number));
                    next = next + 1;
                }
            },
            None => {
                assert(next == last + 1);
                assert(section_mapped(more, *section));
                return (Ok(()), Ghost(more));
            },
        }
    }
}

/// Whether `done` gives each frame from `first` to `last`, but for those
/// from `skip.0` to `skip.1`, the entry that names the frame itself with the
/// flag bits `bits`.
pub open spec fn identity_mapped(
    done: Map<u64, u64>,
    first: int,
    last: int,
    skip: (u64, u64),
    bits: u64,
) -> bool {
    forall|frame: u64|
        first <= frame <= last && (frame < skip.0 || frame > skip.1) ==> #[trigger] done.contains_key(
            frame,
        ) && done[frame] == encode(frame, bits)
}

/// A range of frames that is mapped up to the frame before `number` is
/// mapped up to `number` once that frame has its entry, or is one of those
/// left out.
proof fn lemma_identity_step(
    prior: Map<u64, u64>,
    more: Map<u64, u64>,
    first: int,
    number: u64,
    skip: (u64, u64),
    bits: u64,
)
    requires
        identity_mapped(prior, first, number - 1, skip, bits),
        more == (if number < skip.0 || number > skip.1 {
            prior.insert(number, encode(number, bits))
        } else {
            prior
        }),
    ensures
        identity_mapped(more, first, number as int, skip, bits),
{
    assert forall|frame: u64|
        first <= frame <= number && (frame < skip.0 || frame > skip.1) implies #[trigger] more.contains_key(
        frame,
    ) && more[frame] == encode(frame, bits) by {
        if frame != number {
            assert(prior.contains_key(frame));
        }
    }
}

/// Whether `done` gives each page of `section` its entry.
pub open spec fn section_mapped(done: Map<u64, u64>, section: ElfSection) -> bool {
    forall|page: u64|
        in_section(section, page) ==> #[trigger] done.contains_key(page) && done[page]
            == section_leaf(section, page)
}

/// Whether `done` gives each frame of `module` that holds no byte of the
/// boot information the entry that names the frame itself, present.
pub open spec fn module_mapped(done: Map<u64, u64>, boot_info: BootInformation, module: ModuleTag)
    -> bool {
    identity_mapped(
        done,
        module.start as int / PAGE_SIZE as int,
        (module.end - 1) / PAGE_SIZE as int,
        (
            (boot_info.start_address / PAGE_SIZE) as u64,
            ((boot_info.end_address - 1) / PAGE_SIZE as int) as u64,
        ),
        PRESENT,
    )
}

/// What `done` gives a section or a range of frames, `more` gives them too
/// where it holds every entry of `done`.
pub proof fn lemma_extends_keeps(done: Map<u64, u64>, more: Map<u64, u64>)
    requires
        extends(done, more),
    ensures
        forall|section: ElfSection| #[trigger]
            section_mapped(done, section) ==> section_mapped(more, section),
        forall|first: int, last: int, skip: (u64, u64), bits: u64| #[trigger]
            identity_mapped(done, first, last, skip, bits) ==> identity_mapped(
                more,
                first,
                last,
                skip,
                bits,
            ),
{
    assert forall|section: ElfSection| #[trigger] section_mapped(done, section) implies section_mapped(
        more,
        section,
    ) by {
        assert forall|page: u64| in_section(section, page) implies #[trigger] more.contains_key(
            page,
        ) && more[page] == section_leaf(section, page) by {
            assert(done.contains_key(page));
        }
    }
    assert forall|first: int, last: int, skip: (u64, u64), bits: u64| #[trigger]
        identity_mapped(done, first, last, skip, bits) implies identity_mapped(
        more,
        first,
        last,
        skip,
        bits,
    ) by {
        assert forall|frame: u64|
            first <= frame <= last && (frame < skip.0 || frame > skip.1) implies #[trigger] more.contains_key(
            frame,
        ) && more[frame] == encode(frame, bits) by {
            assert(done.contains_key(frame));
        }
    }
}

/// Maps each frame from `first` to `last`, both included, at its physical
/// address with `flags`, but for the frames from `skip_start` to `skip_end`.
#[verifier::loop_isolation(false)]
#[verifier::rlimit(30)]
fn identity_map_range<A: FrameAllocator>(
    active_table: &mut ActivePageTable,
    first: Frame,
    last: Frame,
    skip_start: &Frame,
    skip_end: &Frame,
    flags: EntryFlags,
    allocator: &mut A,
    Ghost(top): Ghost<u64>,
    Ghost(start): Ghost<Words>,
    Ghost(done): Ghost<Map<u64, u64>>,
) -> (result: (Result<(), PagingError>, Ghost<Map<u64, u64>>))
    requires
        last.number < u64::MAX,
        progress(*old(active_table), *old(allocator), top, start, done),
    ensures
        final(active_table).mapper.root() == old(active_table).mapper.root(),
        final(active_table).mapper.pending() == old(active_table).mapper.pending(),
        final(active_table).mapper.pinned() == old(active_table).mapper.pinned(),
        forall|g: u64| #[trigger] final(allocator).available(g) ==> old(allocator).available(g),
        result.0 matches Err(e) ==> table_error(e),
        result.0.is_ok() ==> {
            &&& progress(*final(active_table), *final(allocator), top, start, result.1@)
            &&& extends(done, result.1@)
            &&& identity_mapped(
                result.1@,
                first.number as int,
                last.number as int,
                (skip_start.number, skip_end.number),
                flags.value() | PRESENT,
            )
        },
{
    let ghost lowest = first.number as int;
    let ghost highest = last.number as int;
    let mut frames = Frame::range_inclusive(first, last);
    let ghost mut more = done;
    let ghost mut next = lowest;
    loop
        invariant
            active_table.mapper.root() == old(active_table).mapper.root(),
            active_table.mapper.pending() == old(active_table).mapper.pending(),
            active_table.mapper.pinned() == old(active_table).mapper.pinned(),
            forall|g: u64| #[trigger] allocator.available(g) ==> old(allocator).available(g),
            lowest <= highest ==> lowest <= next <= highest + 1,
            frames.remaining() == crate::memory::frame_range(next, highest),
            progress(*active_table, *allocator, top, start, more),
            extends(done, more),
            identity_mapped(
                more,
                lowest,
                next - 1,
                (skip_start.number, skip_end.number),
                flags.value() | PRESENT,
            ),
        decreases frames.remaining().len(),
    {
        match frames.next() {
            Some(frame) => {
                let number = frame.number;
                let ghost prior = more;
                assert(number == next);
                if frame.number < skip_start.number || frame.number > skip_end.number {
                    match identity_one(
                        active_table,
                        frame,
                        flags,
                        allocator,
                        Ghost(top),
                        Ghost(start),
                        Ghost(more),
                    ) {
                        Ok(()) => {},
                        Err(e) => {
                            return (Err(e), Ghost(more));
                        },
                    }
                    proof {
                        more = more.insert(number, encode(number, flags.value() | PRESENT));
                    }
                }
                proof {
                    lemma_identity_step(
                        prior,
                        more,
                        lowest,
                        number,
                        (skip_start.number, skip_end.number),
                        flags.value() | PRESENT,
                    );
                    next = next + 1;
                }
            },
            None => {
                assert(progress(*active_table, *allocator, top, start, more));
                assert(extends(done, more));
                assert(lowest <= highest ==> next == highest + 1);
                assert(identity_mapped(
                    more,
                    lowest,
                    highest,
                    (skip_start.number, skip_end.number),
                    flags.value() | PRESENT,
                ));
                return (Ok(()), Ghost(more));
            },
        }
    }
}

/// Maps the page at the physical address of `frame` to `frame` in the tree
/// that is being built.
#[verifier::rlimit(30)]
fn identity_one<A: FrameAllocator>(
    active_table: &mut ActivePageTable,
    frame: Frame,
    flags: EntryFlags,
    allocator: &mut A,
    Ghost(top): Ghost<u64>,
    Ghost(start): Ghost<Words>,
    Ghost(done): Ghost<Map<u64, u64>>,
) -> (result: Result<(), PagingError>)
    requires
        progress(*old(active_table), *old(allocator), top, start, done),
    ensures
        final(active_table).mapper.root() == old(active_table).mapper.root(),
        final(active_table).mapper.pending() == old(active_table).mapper.pending(),
        final(active_table).mapper.pinned() == old(active_table).mapper.pinned(),
        forall|g: u64| #[trigger] final(allocator).available(g) ==> old(allocator).available(g),
        frame.number >= FRAME_LIMIT ==> result == Err::<(), PagingError>(
            PagingError::InvalidFrame,
        ),
        LOWER_HALF_PAGES <= frame.number < FRAME_LIMIT ==> result == Err::<(), PagingError>(
            PagingError::NonCanonicalAddress,
        ),
        frame.number < LOWER_HALF_PAGES && done.contains_key(frame.number) ==> result == Err::<
            (),
            PagingError,
        >(PagingError::PageAlreadyMapped),
        frame.number < LOWER_HALF_PAGES ==> (leaf_table_from(
            old(active_table).mapper.words(),
            top,
            frame.number,
        ) matches Some(p1) ==> {
            &&& *final(allocator) == *old(allocator)
            &&& old(active_table).mapper.words()[(p1, p1_index_of(frame.number))] != 0 ==> result
                == Err::<(), PagingError>(PagingError::PageAlreadyMapped)
            &&& old(active_table).mapper.words()[(p1, p1_index_of(frame.number))] == 0
                ==> result.is_ok()
        }),
        result matches Err(e) ==> e == PagingError::PageAlreadyMapped || e == PagingError::HugePage
            || e == PagingError::OutOfFrames || e == PagingError::TableInUse || e
            == PagingError::InvalidFrame || e == PagingError::NonCanonicalAddress,
        result.is_ok() ==> !done.contains_key(frame.number) && progress(
            *final(active_table),
            *final(allocator),
            top,
            start,
            done.insert(frame.number, encode(frame.number, flags.value() | PRESENT)),
        ),
{
    if frame.number >= FRAME_LIMIT {
        return Err(PagingError::InvalidFrame);
    }
    match Page::containing_address(frame.start_address()) {
        None => Err(PagingError::NonCanonicalAddress),
        Some(page) => {
            assert(page.index() == frame.number);
            assert(p4_index_of(page.index()) < 256);
            assert(in_place(page.index(), frame.number));
            map_one(active_table, page, frame, flags, allocator, Ghost(top), Ghost(start), Ghost(done))
        },
    }
}

/// Whether the boot information `boot_info` is at fault in the way that
/// `error` names: it lacks the table of sections; a section that occupies
/// memory does not start on a page boundary, or lies outside the kernel's
/// part of the address space; the boot information or a module ends at
/// address 0.
pub open spec fn at_fault(boot_info: BootInformation, error: PagingError) -> bool {
    match error {
        PagingError::MissingBootTag => boot_info.elf_sections.is_none(),
        PagingError::MisalignedSection => boot_info.elf_sections matches Some(sections)
            && exists|i: int|
            0 <= i < sections@.len() && (#[trigger] sections@[i]).allocated() && sections@[i].addr
                % PAGE_SIZE != 0,
        PagingError::SectionOutsideKernel => boot_info.elf_sections matches Some(sections)
            && exists|i: int|
            0 <= i < sections@.len() && (#[trigger] sections@[i]).allocated() && !section_in_kernel(
                sections@[i],
            ),
        PagingError::InvalidRange => boot_info.end_address == 0 || exists|i: int|
            0 <= i < boot_info.modules@.len() && (#[trigger] boot_info.modules@[i]).end == 0,
        _ => false,
    }
}

/// Whether `done` gives every page that the kernel runs with its entry:
/// the pages of the sections that occupy memory, the page of the text
/// display buffer, and the pages at the physical addresses of the modules
/// and of the boot information.
pub open spec fn covers(boot_info: BootInformation, done: Map<u64, u64>) -> bool {
    &&& boot_info.elf_sections.is_some()
    &&& boot_info.end_address > 0
    &&& forall|i: int|
        0 <= i < boot_info.elf_sections.unwrap()@.len() && (
        #[trigger] boot_info.elf_sections.unwrap()@[i]).allocated() ==> section_mapped(
            done,
            boot_info.elf_sections.unwrap()@[i],
        )
    &&& done.contains_key((VGA_BUFFER / PAGE_SIZE) as u64)
    &&& done[(VGA_BUFFER / PAGE_SIZE) as u64] == table_entry((VGA_BUFFER / PAGE_SIZE) as u64)
    &&& forall|i: int|
        0 <= i < boot_info.modules@.len() ==> (#[trigger] boot_info.modules@[i]).end > 0
            && module_mapped(done, boot_info, boot_info.modules@[i])
    &&& identity_mapped(
        done,
        boot_info.start_address as int / PAGE_SIZE as int,
        (boot_info.end_address - 1) / PAGE_SIZE as int,
        (1, 0),
        PRESENT,
    )
}

/// Fills the address space that is being built with the mappings that the
/// kernel runs with.
#[verifier::loop_isolation(false)]
#[verifier::rlimit(30)]
fn remap_the_kernel<A: FrameAllocator>(
    active_table: &mut ActivePageTable,
    allocator: &mut A,
    boot_info: &BootInformation,
    Ghost(top): Ghost<u64>,
    Ghost(start): Ghost<Words>,
) -> (result: (Result<(), PagingError>, Ghost<Map<u64, u64>>))
    requires
        progress(*old(active_table), *old(allocator), top, start, Map::<u64, u64>::empty()),
    ensures
        final(active_table).mapper.root() == old(active_table).mapper.root(),
        final(active_table).mapper.pending() == old(active_table).mapper.pending(),
        final(active_table).mapper.pinned() == old(active_table).mapper.pinned(),
        boot_info.elf_sections.is_none() ==> result.0 == Err::<(), PagingError>(
            PagingError::MissingBootTag,
        ),
        forall|g: u64| #[trigger] final(allocator).available(g) ==> old(allocator).available(g),
        result.0 matches Err(e) ==> table_error(e) || at_fault(*boot_info, e),
        result.0.is_ok() ==> {
            &&& progress(*final(active_table), *final(allocator), top, start, result.1@)
            &&& covers(*boot_info, result.1@)
        },
{
    let ghost mut done = Map::<u64, u64>::empty();
    let sections = match &boot_info.elf_sections {
        Some(sections) => sections,
        None => {
            return (Err(PagingError::MissingBootTag), Ghost(done));
        },
    };
    let mut i: usize = 0;
    while i < sections.len()
        invariant
            i <= sections@.len(),
            active_table.mapper.root() == old(active_table).mapper.root(),
            active_table.mapper.pending() == old(active_table).mapper.pending(),
            active_table.mapper.pinned() == old(active_table).mapper.pinned(),
            forall|g: u64| #[trigger] allocator.available(g) ==> old(allocator).available(g),
            progress(*active_table, *allocator, top, start, done),
            forall|k: int|
                0 <= k < i && (#[trigger] sections@[k]).allocated() ==> section_mapped(
                    done,
                    sections@[k],
                ),
        decreases sections@.len() - i,
    {
        let section = sections[i];
        if section.is_allocated() {
            let (result, more) = map_section(
                active_table,
                &section,
                allocator,
                Ghost(top),
                Ghost(start),
                Ghost(done),
            );
            match result {
                Ok(()) => {},
                Err(e) => {
                    return (Err(e), Ghost(done));
                },
            }
            proof {
                lemma_extends_keeps(done, more@);
                done = more@;
            }
        }
        i += 1;
    }
    // identity map the text display buffer
    let vga_buffer_frame = Frame::containing_address(VGA_BUFFER);
    let writable = EntryFlags::from_bits_truncate(WRITABLE);
    proof {
        lemma_table_flags();
    }
    match identity_one(
        active_table,
        vga_buffer_frame,
        writable,
        allocator,
        Ghost(top),
        Ghost(start),
        Ghost(done),
    ) {
        Ok(()) => {},
        Err(e) => {
            return (Err(e), Ghost(done));
        },
    }
    proof {
        let with_buffer = done.insert(
            (VGA_BUFFER / PAGE_SIZE) as u64,
            table_entry((VGA_BUFFER / PAGE_SIZE) as u64),
        );
        assert(extends(done, with_buffer));
        lemma_extends_keeps(done, with_buffer);
        done = with_buffer;
    }
    if boot_info.end_address == 0 {
        return (Err(PagingError::InvalidRange), Ghost(done));
    }
    let multiboot_start = Frame::containing_address(boot_info.start_address);
    let multiboot_end = Frame::containing_address(boot_info.end_address - 1);
    let present = EntryFlags::from_bits_truncate(PRESENT);
    assert(present.value() | PRESENT == PRESENT) by {
        lemma_flag_bits(PRESENT, PRESENT);
        assert(0x1u64 | 0x1 == 0x1) by (bit_vector);
    }
    // identity map the modules
    let mut m: usize = 0;
    while m < boot_info.modules.len()
        invariant
            m <= boot_info.modules@.len(),
            active_table.mapper.root() == old(active_table).mapper.root(),
            active_table.mapper.pending() == old(active_table).mapper.pending(),
            active_table.mapper.pinned() == old(active_table).mapper.pinned(),
            forall|g: u64| #[trigger] allocator.available(g) ==> old(allocator).available(g),
            progress(*active_table, *allocator, top, start, done),
            forall|k: int|
                0 <= k < sections@.len() && (#[trigger] sections@[k]).allocated()
                    ==> section_mapped(done, sections@[k]),
            done.contains_key((VGA_BUFFER / PAGE_SIZE) as u64),
            done[(VGA_BUFFER / PAGE_SIZE) as u64] == table_entry((VGA_BUFFER / PAGE_SIZE) as u64),
            forall|k: int|
                0 <= k < m ==> (#[trigger] boot_info.modules@[k]).end > 0 && module_mapped(
                    done,
                    *boot_info,
                    boot_info.modules@[k],
                ),
        decreases boot_info.modules@.len() - m,
    {
        let module = boot_info.modules[m];
        if module.end == 0 {
            return (Err(PagingError::InvalidRange), Ghost(done));
        }
        let module_start = Frame::containing_address(module.start);
        let module_end = Frame::containing_address(module.end - 1);
        let (result, more) = identity_map_range(
            active_table,
            module_start,
            module_end,
            &multiboot_start,
            &multiboot_end,
            present,
            allocator,
            Ghost(top),
            Ghost(start),
            Ghost(done),
        );
        match result {
            Ok(()) => {},
            Err(e) => {
                return (Err(e), Ghost(done));
            },
        }
        proof {
            lemma_extends_keeps(done, more@);
            assert(done.contains_key((VGA_BUFFER / PAGE_SIZE) as u64));
            assert(module_mapped(more@, *boot_info, module));
            done = more@;
        }
        m += 1;
    }
    // identity map the boot information
    let nothing = Frame { number: 1 };
    let skipped = Frame { number: 0 };
    let (result, more) = identity_map_range(
        active_table,
        multiboot_start,
        multiboot_end,
        &nothing,
        &skipped,
        present,
        allocator,
        Ghost(top),
        Ghost(start),
        Ghost(done),
    );
    proof {
        if result.is_ok() {
            lemma_extends_keeps(done, more@);
            assert(done.contains_key((VGA_BUFFER / PAGE_SIZE) as u64));
            assert(boot_info.elf_sections.unwrap()@ == sections@);
            assert(covers(*boot_info, more@));
        }
    }
    (result, more)
}

/// Whether each page that the kernel runs with has its entry in the address
/// space of `table`, as `covers` says, but for the page with index `guard`.
pub open spec fn kernel_pages_mapped(
    table: ActivePageTable,
    boot_info: BootInformation,
    guard: u64,
) -> bool {
    exists|done: Map<u64, u64>|
        #![trigger covers(boot_info, done)]
        covers(boot_info, done) && forall|page: u64| #[trigger]
            done.contains_key(page) && page != guard ==> is_page_number(page) && p4_index_of(page)
                != 511 && word_present(done[page]) && settled(
                table.mapper.words(),
                table.mapper.root(),
                page,
                done[page],
            )
}

/// Whether the kernel runs in the address space of `table`: its recursive
/// slot names its root table; each page that the kernel runs with has its
/// entry in a table of level 1, as `covers` says, but for the page through
/// which the kernel saw the frame `old_root`, which is not mapped.
pub open spec fn kernel_address_space(
    table: ActivePageTable,
    boot_info: BootInformation,
    old_root: u64,
) -> bool {
    let words = table.mapper.words();
    let root = table.mapper.root();
    let guard = (old_root + KERNEL_OFFSET_PAGE) as u64;
    &&& top_table(words, root) == Some(root)
    &&& old_root < KERNEL_FRAMES
    &&& translation(words, root, guard) == Ok::<Option<Frame>, PagingError>(None)
    &&& kernel_pages_mapped(table, boot_info, guard)
}

/// Builds the address space that the kernel runs in and puts it in force on
/// the machine of `active_table`.  The frame of its top table and the frames
/// of its other tables are taken from `allocator`.
///
/// Boot information without a table of sections is refused before a frame is
/// taken, and so is a machine whose root table lies in a frame that the
/// kernel cannot see above `KERNEL_OFFSET`.  After that an error names the
/// boot information only where the boot information is at fault as
/// `at_fault` says; every other error comes from the page tables or from
/// the frames that `allocator` hands out.
#[verifier::rlimit(30)]
pub fn init<A: FrameAllocator>(
    active_table: ActivePageTable,
    allocator: &mut A,
    boot_info: &BootInformation,
) -> (result: Result<ActivePageTable, PagingError>)
    ensures
        boot_info.elf_sections.is_none() ==> result matches Err(PagingError::MissingBootTag),
        boot_info.elf_sections.is_some() && active_table.mapper.root() >= KERNEL_FRAMES
            ==> result matches Err(PagingError::InvalidRange),
        result matches Err(e) ==> table_error(e) || at_fault(*boot_info, e) || (e
            == PagingError::InvalidRange && active_table.mapper.root() >= KERNEL_FRAMES),
        result matches Ok(table) ==> {
            &&& old(allocator).available(table.mapper.root())
            &&& table.mapper.root() != active_table.mapper.root()
            &&& kernel_address_space(table, *boot_info, active_table.mapper.root())
            &&& is_tree(table.mapper, *final(allocator))
        },
{
    let ghost old_root = active_table.mapper.root();
    let mut active_table = active_table;
    if boot_info.elf_sections.is_none() {
        return Err(PagingError::MissingBootTag);
    }
    // the page through which the kernel sees the root table in force must
    // lie in the kernel's part of the address space
    if active_table.mapper.root_frame().number >= KERNEL_FRAMES {
        return Err(PagingError::InvalidRange);
    }
    let page = match Page::from_number(TEMPORARY_PAGE) {
        Some(page) => page,
        None => {
            return Err(PagingError::NonCanonicalAddress);
        },
    };
    let mut temporary_page = TemporaryPage::new(page, allocator);
    let frame = match allocator.allocate_frame() {
        Some(frame) => frame,
        None => {
            return Err(PagingError::OutOfFrames);
        },
    };
    let ghost top = frame.number;
    let mut new_table = match InactivePageTable::new(
        frame,
        &mut active_table,
        &mut temporary_page,
    ) {
        Ok(table) => table,
        Err(e) => {
            return Err(e);
        },
    };
    let ghost made = active_table;
    let ghost pool = temporary_page.pool();
    let window = match active_table.enter(&new_table, &mut temporary_page) {
        Ok(window) => window,
        Err(e) => {
            return Err(e);
        },
    };
    let ghost start = active_table.mapper.words();
    let ghost entered_table = active_table;
    proof {
        made.mapper.lemma_words_total();
        active_table.mapper.lemma_words_total();
        lemma_entered_starts_tree(
            made,
            active_table,
            *allocator,
            top,
            TEMPORARY_PAGE,
            |g: u64| pool.contains(g) && !temporary_page.pool().contains(g),
        );
        assert(p4_index_of(TEMPORARY_PAGE) == 25);
        assert(p3_index_of(TEMPORARY_PAGE) == 191);
        assert(p2_index_of(TEMPORARY_PAGE) == 349);
        assert(p1_index_of(TEMPORARY_PAGE) == 190);
    }
    let (result, done) = remap_the_kernel(
        &mut active_table,
        allocator,
        boot_info,
        Ghost(top),
        Ghost(start),
    );
    match result {
        Ok(()) => {},
        Err(e) => {
            return Err(e);
        },
    }
    let ghost built = active_table;
    let ghost places = choose|places: Places| #[trigger]
        building(built, *allocator, top, start, places, done@);
    proof {
        active_table.mapper.lemma_words_total();
        lemma_window_stays(made, entered_table, built, top, TEMPORARY_PAGE, places);
    }
    match active_table.leave(window, &mut temporary_page) {
        Ok(()) => {},
        Err(e) => {
            return Err(e);
        },
    }
    let ghost left = active_table.mapper.words();
    proof {
        let root = old_root;
        let restored = built.mapper.words().insert((root, 511), table_entry(root));
        let p1 = leaf_table_from(restored, root, TEMPORARY_PAGE).unwrap();
        lemma_table_flags();
        lemma_encode_decode(root, PRESENT | WRITABLE);
        lemma_word_frame_bound(0);
        lemma_foreign_write_keeps_tree(
            built.mapper.words(),
            top,
            places,
            (root, 511int),
            table_entry(root),
        );
        lemma_foreign_write_keeps_tree(restored, top, places, (p1, 190int), 0);
        assert(left == restored.insert((p1, 190int), 0));
        assert forall|page: u64| #[trigger] done@.contains_key(page) implies settled(
            left,
            top,
            page,
            done@[page],
        ) by {
            assert(settled(built.mapper.words(), top, page, done@[page]));
            assert(settled(restored, top, page, done@[page]));
        }
        assert forall|page: u64, entry: u64|
            is_page_number(page) && p4_index_of(page) != 511 && word_present(entry)
                && #[trigger] settled(left, top, page, entry) implies done@.contains_key(page) by {
            assert(settled(restored, top, page, entry));
            assert(settled(built.mapper.words(), top, page, entry));
        }
        assert(left[(top, 511)] == table_entry(top));
    }
    let ghost before_guard = *allocator;
    let old_table = active_table.switch(new_table);
    // turn the page of the old root table into a guard page
    let old_p4_frame = old_table.p4_frame();
    let old_p4_page = match Page::containing_address(
        old_p4_frame.start_address() + KERNEL_OFFSET,
    ) {
        Some(page) => page,
        None => {
            return Err(PagingError::NonCanonicalAddress);
        },
    };
    let guard = old_p4_page.number();
    assert(guard == old_root + KERNEL_OFFSET_PAGE);
    assert(p4_index_of(guard) == 510);
    match active_table.mapper.unmap(old_p4_page, allocator) {
        Ok(()) => {},
        Err(e) => {
            return Err(e);
        },
    }
    proof {
        active_table.mapper.lemma_words_total();
        lemma_leaf_write_keeps_tree(left, top, places, guard, 0);
        lemma_leaf_place(left, top, places, guard);
        let words = active_table.mapper.words();
        // the frame that the allocator got back is that of the old root
        // table, which holds no table of the new address space
        let freed = crate::memory::paging::mapper::unmap_outcome(left, top, guard).unwrap();
        let g1 = leaf_table_from(left, top, guard).unwrap();
        let held = left[(g1, p1_index_of(guard))];
        assert(settled(left, top, guard, held));
        assert(done@.contains_key(guard));
        assert(freed.number == old_root);
        assert(building(built, before_guard, top, start, places, done@));
        assert(active_table.mapper.pinned() == Set::<u64>::empty());
        assert forall|t: u64| #[trigger] places.contains_key(t) implies !allocator.available(t)
            && !active_table.mapper.pinned().contains(t) by {
            assert(!before_guard.available(t));
            assert(t != built.mapper.root());
            assert(t != freed.number);
            assert(allocator.available(t) == before_guard.available(t));
        }
        assert(tree_space(active_table.mapper, *allocator, places));
        assert(words[(top, 511)] == table_entry(top));
        lemma_table_flags();
        lemma_encode_decode(top, PRESENT | WRITABLE);
        assert forall|page: u64| #[trigger] done@.contains_key(page) && page != guard implies is_page_number(
            page,
        ) && p4_index_of(page) != 511 && word_present(done@[page]) && settled(
            words,
            top,
            page,
            done@[page],
        ) by {
            assert(settled(left, top, page, done@[page]));
        }
        assert(covers(*boot_info, done@));
    }
    Ok(active_table)
}

/// Once the top table of an empty address space stands in for the top table
/// of the address space in force, the empty address space is a tree of one
/// table in which no page has an entry.
#[verifier::rlimit(30)]
proof fn lemma_entered_starts_tree<A: FrameAllocator>(
    made: ActivePageTable,
    entered_table: ActivePageTable,
    allocator: A,
    top: u64,
    page: u64,
    taken: spec_fn(u64) -> bool,
)
    requires
        forall|k: (u64, int)| made.mapper.words().contains_key(k) <==> 0 <= k.1 < 512,
        forall|k: (u64, int)| entered_table.mapper.words().contains_key(k) <==> 0 <= k.1 < 512,
        forall|index: int| 0 <= index < 511 ==> #[trigger] made.mapper.words()[(top, index)] == 0,
        made.mapper.words()[(top, 511)] == table_entry(top),
        made.mapper.pinned() == Set::<u64>::empty(),
        top != made.mapper.root(),
        top < FRAME_LIMIT,
        !allocator.available(top),
        entered_table.mapper.root() == made.mapper.root(),
        top_table(entered_table.mapper.words(), entered_table.mapper.root()) == Some(top),
        !entered_table.mapper.pinned().contains(top),
        entered(made.mapper, entered_table.mapper, page, taken),
    ensures
        progress(
            entered_table,
            allocator,
            top,
            entered_table.mapper.words(),
            Map::<u64, u64>::empty(),
        ),
{
    let root = made.mapper.root();
    let before = made.mapper.words();
    let words = entered_table.mapper.words();
    let mapped = words.insert((root, 511), before[(root, 511)]);
    let (p3, p2, p1) = path_tables(mapped, root, page);
    let places = Map::<u64, crate::memory::paging::layout::Place>::empty().insert(top, place(4, 0));
    lemma_word_frame_bound(0);
    // the frame of the new top table holds none of the tables on the way
    // to the temporary page, so that mapping the page wrote nothing to it
    assert(entered_table.mapper.pinned().contains(p3));
    assert(entered_table.mapper.pinned().contains(p2));
    assert(entered_table.mapper.pinned().contains(p1));
    lemma_mapped_footprint(before, root, page, (p3, p2, p1), table_entry(root));
    assert forall|index: int| 0 <= index < 512 implies #[trigger] words[(top, index)] == before[(
        top,
        index,
    )] by {
        assert(mapped[(top, index)] == before[(top, index)]);
    }
    assert forall|t: u64, index: int|
        #![trigger child(words, t, index)]
        places.contains_key(t) && 2 <= places[t].level <= 4 && 0 <= index < 512 && !(
        places[t].level == 4 && index == 511) implies (child(words, t, index) matches Some(below)
        ==> places.contains_key(below) && places[below] == place(
        places[t].level - 1,
        places[t].path * 512 + index,
    )) by {
        assert(words[(top, index)] == 0);
    }
    assert forall|page: u64, entry: u64|
        is_page_number(page) && p4_index_of(page) != 511 && word_present(entry) && #[trigger] settled(
            words,
            top,
            page,
            entry,
        ) implies false by {
        assert(words[(top, p4_index_of(page))] == 0);
    }
    assert(building(
        entered_table,
        allocator,
        top,
        words,
        places,
        Map::<u64, u64>::empty(),
    ));
}

/// While an address space is built as a tree, the temporary page stays
/// mapped onto the root table in force: setting the recursive slot back and
/// unmapping the page then writes to no frame of the tree.
#[verifier::rlimit(30)]
proof fn lemma_window_stays(
    made: ActivePageTable,
    entered_table: ActivePageTable,
    built: ActivePageTable,
    top: u64,
    page: u64,
    places: Places,
)
    requires
        forall|k: (u64, int)| built.mapper.words().contains_key(k) <==> 0 <= k.1 < 512,
        entered_table.mapper.root() == made.mapper.root(),
        built.mapper.root() == made.mapper.root(),
        built.mapper.pinned() == entered_table.mapper.pinned(),
        made.mapper.root() < FRAME_LIMIT,
        exists|taken: spec_fn(u64) -> bool| #[trigger]
            entered(made.mapper, entered_table.mapper, page, taken),
        layered(built.mapper.words(), top, places),
        forall|t: u64| #[trigger]
            places.contains_key(t) ==> !built.mapper.pinned().contains(t) && t
                != built.mapper.root(),
        forall|k: (u64, int)|
            0 <= k.1 < 512 && #[trigger] built.mapper.words()[k] != entered_table.mapper.words()[k]
                ==> places.contains_key(k.0),
        p4_index_of(page) != 511,
        p3_index_of(page) != 511,
        p2_index_of(page) != 511,
        p1_index_of(page) != 511,
        forall|k: (u64, int)| entered_table.mapper.words().contains_key(k) <==> 0 <= k.1 < 512,
    ensures
        ({
            let root = built.mapper.root();
            let restored = built.mapper.words().insert((root, 511), table_entry(root));
            &&& leaf_table_from(restored, root, page) matches Some(p1) && !places.contains_key(p1)
                && restored[(p1, p1_index_of(page))] == table_entry(root)
            &&& top_table(restored, root) == Some(root)
        }),
{
    let root = made.mapper.root();
    let before = made.mapper.words();
    let at_entry = entered_table.mapper.words();
    let mapped = at_entry.insert((root, 511), before[(root, 511)]);
    let (p3, p2, p1) = path_tables(mapped, root, page);
    let now = built.mapper.words();
    let restored = now.insert((root, 511), table_entry(root));
    lemma_table_flags();
    lemma_encode_decode(root, PRESENT | WRITABLE);
    assert(entered_table.mapper.pinned().contains(p3));
    assert(entered_table.mapper.pinned().contains(p2));
    assert(entered_table.mapper.pinned().contains(p1));
    let i4 = p4_index_of(page);
    let i3 = p3_index_of(page);
    let i2 = p2_index_of(page);
    let i1 = p1_index_of(page);
    assert(child(mapped, root, i4) == Some(p3));
    assert(child(mapped, p3, i3) == Some(p2));
    assert(child(mapped, p2, i2) == Some(p1));
    assert(now[(root, i4)] == at_entry[(root, i4)]);
    assert(now[(p3, i3)] == at_entry[(p3, i3)]);
    assert(now[(p2, i2)] == at_entry[(p2, i2)]);
    assert(now[(p1, i1)] == at_entry[(p1, i1)]);
    assert(restored[(root, i4)] == mapped[(root, i4)]);
    assert(restored[(p3, i3)] == mapped[(p3, i3)]);
    assert(restored[(p2, i2)] == mapped[(p2, i2)]);
    assert(restored[(p1, i1)] == mapped[(p1, i1)]);
}

} // verus!
