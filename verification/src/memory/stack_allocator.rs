//! Stacks for the tasks of the kernel, each below a page that is left
//! unmapped so that running over the end of the stack faults.

use vstd::prelude::*;
use crate::memory::PAGE_SIZE;
use crate::memory::Page;
use crate::memory::PageIter;
use crate::memory::frame_allocator::FrameAllocator;
use crate::memory::lemma_range_is_consecutive;
use crate::memory::p4_index_of;
use crate::memory::paging::ActivePageTable;
use crate::memory::paging::PagingError;
use crate::memory::paging::entry::EntryFlags;
use crate::memory::paging::entry::PRESENT;
use crate::memory::paging::entry::WRITABLE;
use crate::memory::paging::layout::is_tree;
use crate::memory::paging::mapper::maps_range;

verus! {

/// The flag bits of the entries of a stack: present and writable.
pub const STACK_FLAGS: u64 = 0x3;

/// A stack: the addresses from `bottom` up to, but not including, `top`.
#[derive(Debug, PartialEq, Eq, Structural)]
pub struct Stack {
    top: u64,
    bottom: u64,
}

impl Stack {
    #[verifier::type_invariant]
    spec fn ordered(self) -> bool {
        self.top > self.bottom
    }

    /// The first address above the stack.
    pub closed spec fn top_address(&self) -> u64 {
        self.top
    }

    /// The lowest address of the stack.
    pub closed spec fn bottom_address(&self) -> u64 {
        self.bottom
    }

    /// The stack from `bottom` up to `top`, which lies above `bottom`.
    pub fn new(top: u64, bottom: u64) -> (stack: Stack)
        requires
            top > bottom,
        ensures
            stack.top_address() == top,
            stack.bottom_address() == bottom,
    {
        Stack { top, bottom }
    }

    /// The first address above the stack.
    pub fn top(&self) -> (top: u64)
        ensures
            top == self.top_address(),
            top > self.bottom_address(),
    {
        proof {
            use_type_invariant(self);
        }
        self.top
    }

    /// The lowest address of the stack.
    pub fn bottom(&self) -> (bottom: u64)
        ensures
            bottom == self.bottom_address(),
            bottom < self.top_address(),
    {
        proof {
            use_type_invariant(self);
        }
        self.bottom
    }
}

/// Hands out stacks from a range of pages, from the lowest page upwards.
pub struct StackAllocator {
    range: PageIter,
}

impl StackAllocator {
    /// The indices of the pages that are left for stacks.
    pub closed spec fn pages(&self) -> Seq<int> {
        self.range.remaining()
    }

    /// An allocator of stacks over the pages of `page_range`.
    pub fn new(page_range: PageIter) -> (allocator: StackAllocator)
        ensures
            allocator.pages() == page_range.remaining(),
    {
        StackAllocator { range: page_range }
    }

    /// Makes a stack of `size_in_pages` pages.  The lowest page that is left
    /// stays unmapped as guard page, the pages above it are mapped writable
    /// to frames of `frame_allocator`.  `None`, and nothing changes, where no
    /// page is asked for or fewer than `size_in_pages + 1` pages are left.
    #[verifier::loop_isolation(false)]
    #[verifier::rlimit(30)]
    pub fn alloc_stack<A: FrameAllocator>(
        &mut self,
        active_table: &mut ActivePageTable,
        frame_allocator: &mut A,
        size_in_pages: usize,
    ) -> (result: Result<Option<Stack>, PagingError>)
        ensures
            final(active_table).mapper.root() == old(active_table).mapper.root(),
            final(active_table).mapper.pending() == old(active_table).mapper.pending(),
            size_in_pages == 0 || old(self).pages().len() <= size_in_pages ==> {
                &&& result matches Ok(None)
                &&& final(self).pages() == old(self).pages()
                &&& final(active_table).mapper.words() == old(active_table).mapper.words()
                &&& *final(frame_allocator) == *old(frame_allocator)
            },
            size_in_pages != 0 && old(self).pages().len() > size_in_pages ==> {
                &&& final(self).pages() == old(self).pages().skip(size_in_pages + 1)
                &&& !(result matches Ok(None))
            },
            result matches Ok(Some(stack)) ==> {
                &&& stack.bottom_address() == old(self).pages()[1] * PAGE_SIZE
                &&& stack.top_address() == old(self).pages()[size_in_pages as int] * PAGE_SIZE
                    + PAGE_SIZE
            },
            forall|g: u64|
                #[trigger] final(frame_allocator).available(g) ==> old(frame_allocator).available(g),
            result matches Ok(Some(_)) && is_tree(
                old(active_table).mapper,
                *old(frame_allocator),
            ) && (forall|i: int|
                0 <= i < old(self).pages().len() ==> p4_index_of(
                    #[trigger] old(self).pages()[i] as u64,
                ) != 511) ==> maps_range(
                old(active_table).mapper,
                final(active_table).mapper,
                *final(frame_allocator),
                old(self).pages().subrange(1, size_in_pages + 1),
                STACK_FLAGS,
            ),
    {
        if size_in_pages == 0 {
            return Ok(None);
        }
        let mut range = self.range.clone();
        // the stack pages and a guard page
        let guard_page = range.next();
        let stack_start = range.next();
        let stack_end = if size_in_pages == 1 {
            stack_start
        } else {
            // the index starts at 0 and `stack_start` is allocated already
            range.nth(size_in_pages - 2)
        };
        let (start, end) = match (guard_page, stack_start, stack_end) {
            (Some(_), Some(start), Some(end)) => (start, end),
            _ => {
                return Ok(None);
            },
        };
        assert(range.remaining() =~= old(self).pages().skip(size_in_pages + 1));
        assert(start.index() == old(self).pages()[1]);
        assert(end.index() == old(self).pages()[size_in_pages as int]);
        // success: write back the updated range
        self.range = range;
        // map the stack pages to physical frames
        let top_of_stack = match end.start_address().checked_add(PAGE_SIZE) {
            Some(top) => top,
            None => {
                return Err(PagingError::InvalidRange);
            },
        };
        let bottom = start.start_address();
        let pages = Page::range_inclusive(start, end);
        let flags = EntryFlags::from_bits_truncate(WRITABLE);
        assert(flags.value() | PRESENT == STACK_FLAGS) by {
            assert((0x2u64 & 0x8000_0000_0000_01ff) | 0x1 == 0x3) by (bit_vector);
        }
        proof {
            let all = old(self).pages();
            assert(pages.remaining() =~= all.subrange(1, size_in_pages + 1)) by {
                assert(all[1] == start.index());
                assert(all[size_in_pages as int] == end.index());
                lemma_range_is_consecutive(all, 1, size_in_pages as int);
            }
        }
        match active_table.mapper.map_range(pages, flags, frame_allocator) {
            Ok(()) => {},
            Err(e) => {
                return Err(e);
            },
        }
        Ok(Some(Stack::new(top_of_stack, bottom)))
    }
}

} // verus!
