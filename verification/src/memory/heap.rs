//! The kernel heap: a fixed range of virtual memory above the kernel image.

use vstd::prelude::*;
use crate::memory::KERNEL_HEAP_SIZE;
use crate::memory::KERNEL_HEAP_START;
use crate::memory::Page;
use crate::memory::frame_allocator::FrameAllocator;
use crate::memory::frame_range;
use crate::memory::p4_index_of;
use crate::memory::paging::ActivePageTable;
use crate::memory::paging::PagingError;
use crate::memory::paging::entry::EntryFlags;
use crate::memory::paging::entry::GLOBAL;
use crate::memory::paging::entry::NO_EXECUTE;
use crate::memory::paging::entry::PRESENT;
use crate::memory::paging::entry::WRITABLE;
use crate::memory::paging::layout::is_tree;
use crate::memory::paging::mapper::maps_range;

verus! {

/// Index of the first page of the heap.
pub const HEAP_START_PAGE: u64 = 0xf_ffff_f400_0000;

/// Index of the last page of the heap.
pub const HEAP_END_PAGE: u64 = 0xf_ffff_f400_7fff;

/// The flag bits of the entries of the heap: present, writable, global and
/// not executable.
pub const HEAP_FLAGS: u64 = 0x8000_0000_0000_0103;

/// Maps every page of the heap to a frame of `frame_allocator`: present,
/// writable, global and not executable.  Gives the last page of the heap.
#[verifier::rlimit(30)]
pub fn init<A: FrameAllocator>(active_table: &mut ActivePageTable, frame_allocator: &mut A) -> (result:
    Result<Page, PagingError>)
    ensures
        final(active_table).mapper.root() == old(active_table).mapper.root(),
        final(active_table).mapper.pending() == old(active_table).mapper.pending(),
        result matches Ok(page) ==> page.index() == HEAP_END_PAGE,
        result matches Err(e) ==> e == PagingError::InvalidFrame || e
            == PagingError::NoRecursiveMapping || e == PagingError::HugePage || e
            == PagingError::OutOfFrames || e == PagingError::TableInUse || e
            == PagingError::PageAlreadyMapped,
        forall|g: u64|
            #[trigger] final(frame_allocator).available(g) ==> old(frame_allocator).available(g),
        result.is_ok() && is_tree(old(active_table).mapper, *old(frame_allocator)) ==> maps_range(
            old(active_table).mapper,
            final(active_table).mapper,
            *final(frame_allocator),
            frame_range(HEAP_START_PAGE as int, HEAP_END_PAGE as int),
            HEAP_FLAGS,
        ),
{
    let heap_start_page = match Page::containing_address(KERNEL_HEAP_START) {
        Some(page) => page,
        None => {
            return Err(PagingError::InvalidFrame);
        },
    };
    let heap_end_page = match Page::containing_address(KERNEL_HEAP_START + KERNEL_HEAP_SIZE - 1) {
        Some(page) => page,
        None => {
            return Err(PagingError::InvalidFrame);
        },
    };
    let pages = Page::range_inclusive(heap_start_page, heap_end_page);
    let flags = EntryFlags::from_bits_truncate(PRESENT | GLOBAL | WRITABLE | NO_EXECUTE);
    assert(flags.value() | PRESENT == HEAP_FLAGS) by {
        assert(((0x1u64 | 0x100 | 0x2 | 0x8000_0000_0000_0000) & 0x8000_0000_0000_01ff) | 0x1
            == 0x8000_0000_0000_0103) by (bit_vector);
    }
    assert forall|i: int| 0 <= i < pages.remaining().len() implies p4_index_of(
        #[trigger] pages.remaining()[i] as u64,
    ) != 511 by {
        let q = pages.remaining()[i];
        assert(HEAP_START_PAGE <= q <= HEAP_END_PAGE);
    }
    match active_table.mapper.map_range(pages, flags, frame_allocator) {
        Ok(()) => Ok(heap_end_page),
        Err(e) => Err(e),
    }
}

} // verus!
