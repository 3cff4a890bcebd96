//! Physical frames, virtual pages and the address arithmetic between them.
//!
//! Addresses are 64-bit machine words.  A frame is a 4 KiB piece of physical
//! memory and a page a 4 KiB piece of virtual memory; both are named by their
//! index, the address divided by the page size.

use vstd::prelude::*;

pub mod boot_info;
pub mod controller;
pub mod frame_allocator;
pub mod heap;
pub mod paging;
pub mod pmm;
pub mod ram;
pub mod stack_allocator;

verus! {

/// An address in physical memory.
pub type PhysicalAddress = u64;

/// An address in the address space of a program.
pub type VirtualAddress = u64;

/// Size in bytes of a frame and of a page.
pub const PAGE_SIZE: u64 = 0x1000;

/// Bytes of virtual memory that one slot of the root table spans.
pub const PML4_SIZE: u64 = 0x0000_0080_0000_0000;

/// Bytes of virtual memory that belong to the kernel image and its heap.
pub const KERNEL_SIZE: u64 = 0x0000_0080_0000_0000;

/// Start of the region that the recursive slot of the root table spans.
pub const RECURSIVE_PAGE_OFFSET: u64 = 0xffff_ff80_0000_0000;

/// Virtual address at which physical address zero of the kernel image lies.
pub const KERNEL_OFFSET: u64 = 0xffff_ff00_0000_0000;

/// First address of the heap: the middle of the kernel's part of the
/// address space.
pub const KERNEL_HEAP_START: u64 = 0xffff_ff40_0000_0000;

/// Bytes of the heap: 128 MiB.
pub const KERNEL_HEAP_SIZE: u64 = 0x0800_0000;

/// Physical address of the text display buffer.
pub const VGA_BUFFER: u64 = 0xb8000;

/// First address above the lower canonical half.
pub const LOWER_HALF_END: u64 = 0x0000_8000_0000_0000;

/// First address of the upper canonical half.
pub const UPPER_HALF_START: u64 = 0xffff_8000_0000_0000;

/// Whether the bits of `address` above bit 47 all equal bit 47.
pub open spec fn is_canonical(address: u64) -> bool {
    address < LOWER_HALF_END || address >= UPPER_HALF_START
}

/// Whether `number` is the index of a page at a canonical address.
pub open spec fn is_page_number(number: u64) -> bool {
    number < 0x8_0000_0000 || 0xf_fff8_0000_0000 <= number <= 0xf_ffff_ffff_ffff
}

/// A physical page frame, named by its index.  Frames are ordered by index.
#[derive(Debug, PartialEq, Eq, Structural)]
pub struct Frame {
    pub number: u64,
}

impl Frame {
    /// The frame that holds the byte at `address`.
    pub fn containing_address(address: PhysicalAddress) -> (frame: Frame)
        ensures
            frame.number == address / PAGE_SIZE,
            frame.number * PAGE_SIZE <= address < frame.number * PAGE_SIZE + PAGE_SIZE,
    {
        Frame { number: address / PAGE_SIZE }
    }

    /// The frame that holds the byte at `address`.
    pub fn for_address(address: PhysicalAddress) -> (frame: Frame)
        ensures
            frame.number == address / PAGE_SIZE,
            frame.number * PAGE_SIZE <= address < frame.number * PAGE_SIZE + PAGE_SIZE,
    {
        Frame::containing_address(address)
    }

    /// The address of the first byte of the frame.
    pub fn address(&self) -> (address: PhysicalAddress)
        requires
            self.number * PAGE_SIZE <= u64::MAX,
        ensures
            address == self.number * PAGE_SIZE,
    {
        self.start_address()
    }

    /// The address of the first byte of the frame.
    pub fn start_address(&self) -> (address: PhysicalAddress)
        requires
            self.number * PAGE_SIZE <= u64::MAX,
        ensures
            address == self.number * PAGE_SIZE,
    {
        self.number * PAGE_SIZE
    }

    /// A second handle on the same frame.
    pub fn clone(&self) -> (frame: Frame)
        ensures
            frame == *self,
    {
        Frame { number: self.number }
    }

    /// The frames from `start` to `end`, both included, in ascending order.
    pub fn range_inclusive(start: Frame, end: Frame) -> (iter: FrameIter)
        requires
            end.number < u64::MAX,
        ensures
            iter.remaining() == frame_range(start.number as int, end.number as int),
    {
        FrameIter { start, end }
    }
}

/// Every address lies in the frame that holds it: not below the start of
/// the frame, and less than one page above it.
pub proof fn lemma_frame_holds_address(address: PhysicalAddress)
    ensures
        (address / PAGE_SIZE) * PAGE_SIZE <= address < (address / PAGE_SIZE) * PAGE_SIZE
            + PAGE_SIZE,
{
}

/// The indices from `start` to `end`, both included; empty when `start > end`.
pub open spec fn frame_range(start: int, end: int) -> Seq<int> {
    if start <= end {
        Seq::new((end - start + 1) as nat, |i: int| start + i)
    } else {
        Seq::empty()
    }
}

/// Walks an inclusive range of frames upwards.
pub struct FrameIter {
    start: Frame,
    end: Frame,
}

impl FrameIter {
    #[verifier::type_invariant]
    spec fn bounded(self) -> bool {
        self.end.number < u64::MAX
    }

    /// The indices of the frames still to come, in the order they come.
    pub closed spec fn remaining(&self) -> Seq<int> {
        frame_range(self.start.number as int, self.end.number as int)
    }

    /// The next frame of the range, or `None` once the range is used up.
    pub fn next(&mut self) -> (frame: Option<Frame>)
        ensures
            old(self).remaining().len() == 0 ==> frame.is_none() && final(self).remaining()
                == old(self).remaining(),
            old(self).remaining().len() > 0 ==> frame == Some(
                Frame { number: old(self).remaining()[0] as u64 },
            ) && final(self).remaining() == old(self).remaining().skip(1)
                && 0 <= old(self).remaining()[0] <= u64::MAX,
    {
        proof {
            use_type_invariant(&*self);
        }
        if self.start.number <= self.end.number {
            let frame = self.start.clone();
            self.start.number += 1;
            assert(self.remaining() =~= old(self).remaining().skip(1));
            Some(frame)
        } else {
            None
        }
    }
}

/// A virtual page, named by its index.  The address of a page is canonical.
#[derive(Debug, Clone, Copy, PartialEq, Eq, Structural)]
pub struct Page {
    number: u64,
}

impl Page {
    #[verifier::type_invariant]
    spec fn canonical(self) -> bool {
        is_page_number(self.number)
    }

    /// The index of the page.
    pub closed spec fn index(&self) -> u64 {
        self.number
    }

    /// The page that holds the byte at `address`, or `None` where the address
    /// is not canonical.
    pub fn containing_address(address: VirtualAddress) -> (page: Option<Page>)
        ensures
            page.is_some() <==> is_canonical(address),
            page matches Some(p) ==> p.index() == address / PAGE_SIZE,
    {
        if address < LOWER_HALF_END || address >= UPPER_HALF_START {
            Some(Page { number: address / PAGE_SIZE })
        } else {
            None
        }
    }

    /// The page with the given index, or `None` where no canonical address
    /// has that index.
    pub fn from_number(number: u64) -> (page: Option<Page>)
        ensures
            page.is_some() <==> is_page_number(number),
            page matches Some(p) ==> p.index() == number,
    {
        if number < 0x8_0000_0000 || (0xf_fff8_0000_0000 <= number && number <= 0xf_ffff_ffff_ffff) {
            Some(Page { number })
        } else {
            None
        }
    }

    /// The index of the page.
    pub fn number(&self) -> (number: u64)
        ensures
            number == self.index(),
            is_page_number(number),
    {
        proof {
            use_type_invariant(self);
        }
        self.number
    }

    /// The address of the first byte of the page.
    pub fn start_address(&self) -> (address: VirtualAddress)
        ensures
            address == self.index() * PAGE_SIZE,
            is_canonical(address),
    {
        proof {
            use_type_invariant(self);
        }
        self.number * PAGE_SIZE
    }

    /// The pages from `start` to `end`, both included, in ascending order.
    /// Both ends lie in the same canonical half, so that every index between
    /// them is that of a page.
    pub fn range_inclusive(start: Page, end: Page) -> (iter: PageIter)
        requires
            start.index() <= end.index() ==> (start.index() < 0x8_0000_0000 <==> end.index()
                < 0x8_0000_0000),
        ensures
            iter.remaining() == frame_range(start.index() as int, end.index() as int),
    {
        proof {
            use_type_invariant(start);
            use_type_invariant(end);
        }
        PageIter { start: start.number, end: end.number }
    }

    /// Slot of the page in the root table: bits 27 to 35 of its index.
    pub fn p4_index(&self) -> (index: usize)
        ensures
            index == p4_index_of(self.index()),
            index < 512,
    {
        let n = self.number;
        assert((n >> 27) & 0o777 == (n / 0x800_0000) % 512) by (bit_vector);
        ((self.number >> 27) & 0o777) as usize
    }

    /// Slot of the page in its level-3 table: bits 18 to 26 of its index.
    pub fn p3_index(&self) -> (index: usize)
        ensures
            index == p3_index_of(self.index()),
            index < 512,
    {
        let n = self.number;
        assert((n >> 18) & 0o777 == (n / 0x4_0000) % 512) by (bit_vector);
        ((self.number >> 18) & 0o777) as usize
    }

    /// Slot of the page in its level-2 table: bits 9 to 17 of its index.
    pub fn p2_index(&self) -> (index: usize)
        ensures
            index == p2_index_of(self.index()),
            index < 512,
    {
        let n = self.number;
        assert((n >> 9) & 0o777 == (n / 0x200) % 512) by (bit_vector);
        ((self.number >> 9) & 0o777) as usize
    }

    /// Slot of the page in its level-1 table: bits 0 to 8 of its index.
    pub fn p1_index(&self) -> (index: usize)
        ensures
            index == p1_index_of(self.index()),
            index < 512,
    {
        let n = self.number;
        assert((n >> 0) & 0o777 == n % 512) by (bit_vector);
        ((self.number >> 0) & 0o777) as usize
    }
}

pub open spec fn p4_index_of(number: u64) -> int {
    (number as int / 0x800_0000) % 512
}

pub open spec fn p3_index_of(number: u64) -> int {
    (number as int / 0x4_0000) % 512
}

pub open spec fn p2_index_of(number: u64) -> int {
    (number as int / 0x200) % 512
}

pub open spec fn p1_index_of(number: u64) -> int {
    number as int % 512
}

/// Whether each of `pages` is the one before it plus one.
pub open spec fn consecutive(pages: Seq<int>) -> bool {
    forall|i: int| 0 <= i < pages.len() ==> #[trigger] pages[i] == pages[0] + i
}

/// A piece of a run of consecutive indices is the range from its first to
/// its last index.
pub proof fn lemma_range_is_consecutive(pages: Seq<int>, from: int, to: int)
    requires
        consecutive(pages),
        0 <= from <= to < pages.len(),
    ensures
        pages.subrange(from, to + 1) =~= frame_range(pages[from], pages[to]),
{
    assert(pages[from] == pages[0] + from);
    assert(pages[to] == pages[0] + to);
    assert forall|i: int| 0 <= i < to + 1 - from implies pages.subrange(from, to + 1)[i]
        == frame_range(pages[from], pages[to])[i] by {
        assert(pages[from + i] == pages[0] + from + i);
    }
}

/// Whether the indices `pages` all lie in the same canonical half.
pub open spec fn in_one_half(pages: Seq<int>) -> bool {
    forall|i: int, j: int|
        0 <= i < pages.len() && 0 <= j < pages.len() ==> (#[trigger] pages[i] < 0x8_0000_0000
            <==> #[trigger] pages[j] < 0x8_0000_0000)
}

/// Walks an inclusive range of pages upwards.
pub struct PageIter {
    start: u64,
    end: u64,
}

impl PageIter {
    #[verifier::type_invariant]
    spec fn same_half(self) -> bool {
        &&& self.end <= 0xf_ffff_ffff_ffff
        &&& self.start <= self.end ==> {
            &&& is_page_number(self.start)
            &&& is_page_number(self.end)
            &&& (self.start < 0x8_0000_0000 <==> self.end < 0x8_0000_0000)
        }
    }

    /// The indices of the pages still to come, in the order they come.
    pub closed spec fn remaining(&self) -> Seq<int> {
        frame_range(self.start as int, self.end as int)
    }

    /// A second walk over the pages still to come.
    pub fn clone(&self) -> (iter: PageIter)
        ensures
            iter.remaining() == self.remaining(),
            in_one_half(self.remaining()),
            consecutive(self.remaining()),
    {
        proof {
            use_type_invariant(self);
        }
        PageIter { start: self.start, end: self.end }
    }

    /// Passes over `n` pages and gives the page after them; `None`, with the
    /// range used up, where fewer than `n + 1` pages are left.
    pub fn nth(&mut self, n: usize) -> (page: Option<Page>)
        ensures
            n < old(self).remaining().len() ==> page.is_some() && page.unwrap().index() == old(self).remaining()[n as int] && final(self).remaining() == old(self).remaining().skip(
                n + 1,
            ),
            n >= old(self).remaining().len() ==> page.is_none() && final(self).remaining().len()
                == 0,
            in_one_half(old(self).remaining()),
    {
        proof {
            use_type_invariant(&*self);
        }
        if self.start <= self.end && n as u64 <= self.end - self.start {
            let number = self.start + n as u64;
            self.start = number + 1;
            assert(self.remaining() =~= old(self).remaining().skip(n + 1));
            Some(Page { number })
        } else {
            if self.start <= self.end {
                self.start = self.end + 1;
            }
            None
        }
    }

    /// The next page of the range, or `None` once the range is used up.
    pub fn next(&mut self) -> (page: Option<Page>)
        ensures
            old(self).remaining().len() == 0 ==> page.is_none() && final(self).remaining()
                == old(self).remaining(),
            old(self).remaining().len() > 0 ==> page.is_some() && page.unwrap().index()
                == old(self).remaining()[0] && final(self).remaining() == old(self).remaining().skip(1),
            in_one_half(old(self).remaining()),
    {
        proof {
            use_type_invariant(&*self);
        }
        if self.start <= self.end {
            let page = Page { number: self.start };
            self.start += 1;
            assert(self.remaining() =~= old(self).remaining().skip(1));
            Some(page)
        } else {
            None
        }
    }
}

} // verus!
