//! Sources of physical frames.
//!
//! `AreaFrameAllocator` hands out the frames of the memory areas that the
//! boot loader reported as free, from the lowest upwards, and passes over the
//! frames of the kernel image and of the boot information.  It keeps no
//! record of frames given back.

use vstd::prelude::*;
use crate::memory::Frame;
use crate::memory::PAGE_SIZE;

verus! {

/// A source and sink of physical frames.
pub trait FrameAllocator {
    /// Whether the frame with index `frame` is one that the allocator may
    /// hand out.
    spec fn available(&self, frame: u64) -> bool;

    /// Hands out a frame, or `None` where the allocator finds none.  The
    /// frame was available and is so no longer; of every other frame nothing
    /// changes.
    fn allocate_frame(&mut self) -> (frame: Option<Frame>)
        ensures
            frame matches Some(f) ==> old(self).available(f.number) && !final(self).available(
                f.number,
            ),
            forall|g: u64|
                frame != Some(Frame { number: g }) ==> #[trigger] final(self).available(g) == old(self).available(g),
    ;

    /// Takes `frame` back.  Of every other frame nothing changes.
    fn deallocate_frame(&mut self, frame: Frame)
        ensures
            forall|g: u64|
                g != frame.number ==> #[trigger] final(self).available(g) == old(self).available(
                    g,
                ),
    ;
}

/// Whether handing out `frame` can have turned the allocator `before` into
/// `after`: the frame was available and is so no longer, and of every other
/// frame nothing changed.
pub open spec fn hands_out<A: FrameAllocator>(before: A, frame: Frame, after: A) -> bool {
    &&& before.available(frame.number)
    &&& !after.available(frame.number)
    &&& forall|g: u64| g != frame.number ==> #[trigger] after.available(g) == before.available(g)
}

/// An allocator hands out no frame twice: of two frames handed out one after
/// the other, the second is not the first.
pub proof fn lemma_no_frame_twice<A: FrameAllocator>(
    start: A,
    first: Frame,
    between: A,
    second: Frame,
    end: A,
)
    requires
        hands_out(start, first, between),
        hands_out(between, second, end),
    ensures
        first != second,
        !end.available(first.number),
        !end.available(second.number),
{
}

/// A piece of physical memory that the boot loader reported as free.
#[derive(Debug, Clone, Copy, PartialEq, Eq, Structural)]
pub struct MemoryArea {
    pub base_addr: u64,
    pub length: u64,
}

impl MemoryArea {
    /// Whether the area holds at least one byte and ends within the address
    /// space.
    pub open spec fn valid(&self) -> bool {
        self.length > 0 && self.base_addr + self.length - 1 <= u64::MAX
    }

    /// The index of the frame that holds the first byte of the area.
    pub open spec fn first_frame(&self) -> int {
        self.base_addr as int / 0x1000
    }

    /// The index of the frame that holds the last byte of the area.
    pub open spec fn last_frame(&self) -> int {
        (self.base_addr + self.length - 1) / 0x1000
    }

    /// Whether the frame with index `frame` holds a byte of the area.
    pub open spec fn holds(&self, frame: int) -> bool {
        self.first_frame() <= frame <= self.last_frame()
    }

    /// Whether the area is valid.
    pub fn is_valid(&self) -> (valid: bool)
        ensures
            valid == self.valid(),
    {
        self.length > 0 && self.base_addr <= u64::MAX - (self.length - 1)
    }

    fn last(&self) -> (frame: Frame)
        requires
            self.valid(),
        ensures
            frame.number == self.last_frame(),
            frame.number < 0x10_0000_0000_0000,
    {
        let address = self.base_addr + (self.length - 1);
        Frame::containing_address(address)
    }
}

/// Whether one of `areas` holds a byte of the frame with index `frame`.
pub open spec fn in_some_area(areas: Seq<MemoryArea>, frame: int) -> bool {
    exists|i: int| 0 <= i < areas.len() && #[trigger] areas[i].holds(frame)
}

/// Hands out the frames of a list of memory areas in ascending order.
pub struct AreaFrameAllocator {
    next_free_frame: Frame,
    current_area: Option<usize>,
    areas: Vec<MemoryArea>,
    kernel_start: Frame,
    kernel_end: Frame,
    multiboot_start: Frame,
    multiboot_end: Frame,
}

impl AreaFrameAllocator {
    #[verifier::type_invariant]
    spec fn inv(self) -> bool {
        &&& forall|i: int| 0 <= i < self.areas@.len() ==> (#[trigger] self.areas@[i]).valid()
        &&& self.kernel_end.number < 0x10_0000_0000_0000
        &&& self.multiboot_end.number < 0x10_0000_0000_0000
        &&& self.next_free_frame.number <= 0x10_0000_0000_0000
        &&& match self.current_area {
            Some(k) => k < self.areas@.len() && self.areas@[k as int].first_frame()
                <= self.next_free_frame.number,
            None => forall|i: int|
                0 <= i < self.areas@.len() ==> (#[trigger] self.areas@[i]).last_frame()
                    < self.next_free_frame.number,
        }
    }

    /// The areas that frames are taken from.
    pub closed spec fn areas(&self) -> Seq<MemoryArea> {
        self.areas@
    }

    /// The index below which no frame is handed out any more.
    pub closed spec fn cursor(&self) -> u64 {
        self.next_free_frame.number
    }

    /// First and last frame of the kernel image.
    pub closed spec fn kernel_range(&self) -> (u64, u64) {
        (self.kernel_start.number, self.kernel_end.number)
    }

    /// First and last frame of the boot information.
    pub closed spec fn multiboot_range(&self) -> (u64, u64) {
        (self.multiboot_start.number, self.multiboot_end.number)
    }

    /// Whether the frame with index `frame` belongs to the kernel image or
    /// to the boot information.
    pub open spec fn is_reserved(&self, frame: u64) -> bool {
        ||| self.kernel_range().0 <= frame <= self.kernel_range().1
        ||| self.multiboot_range().0 <= frame <= self.multiboot_range().1
    }

    /// Whether the frame with index `frame` lies in one of the areas and is
    /// not reserved.
    pub open spec fn is_usable(&self, frame: u64) -> bool {
        in_some_area(self.areas(), frame as int) && !self.is_reserved(frame)
    }

    /// An allocator over `memory_areas` that never hands out a frame of the
    /// kernel image, which lies between the addresses `kernel_start` and
    /// `kernel_end`, nor one of the boot information between
    /// `multiboot_start` and `multiboot_end`.  Each range is given by the
    /// addresses of its first and of its last byte.
    pub fn new(
        kernel_start: u64,
        kernel_end: u64,
        multiboot_start: u64,
        multiboot_end: u64,
        memory_areas: Vec<MemoryArea>,
    ) -> (allocator: AreaFrameAllocator)
        requires
            forall|i: int| 0 <= i < memory_areas@.len() ==> (#[trigger] memory_areas@[i]).valid(),
        ensures
            allocator.areas() == memory_areas@,
            allocator.kernel_range() == (kernel_start / PAGE_SIZE, kernel_end / PAGE_SIZE),
            allocator.multiboot_range() == (multiboot_start / PAGE_SIZE, multiboot_end / PAGE_SIZE),
            forall|g: u64|
                in_some_area(memory_areas@, g as int) ==> allocator.cursor() <= g,
    {
        let best = lowest_area(&memory_areas, 0);
        let start = match best {
            Some(k) => Frame::containing_address(memory_areas[k].base_addr),
            None => Frame::containing_address(0),
        };
        let kernel_start = Frame::containing_address(kernel_start);
        let kernel_end = Frame::containing_address(kernel_end);
        let multiboot_start = Frame::containing_address(multiboot_start);
        let multiboot_end = Frame::containing_address(multiboot_end);
        AreaFrameAllocator {
            next_free_frame: start,
            current_area: best,
            areas: memory_areas,
            kernel_start,
            kernel_end,
            multiboot_start,
            multiboot_end,
        }
    }

    /// Picks, among the areas whose last frame is not below the cursor, the
    /// one with the lowest base address, and moves the cursor up to its first
    /// frame where the cursor lies below it.
    fn choose_next_area(&mut self)
        ensures
            final(self).areas() == old(self).areas(),
            final(self).kernel_range() == old(self).kernel_range(),
            final(self).multiboot_range() == old(self).multiboot_range(),
            final(self).cursor() >= old(self).cursor(),
            forall|g: u64|
                old(self).cursor() <= g < final(self).cursor() ==> !in_some_area(
                    old(self).areas(),
                    g as int,
                ),
            match final(self).current_area {
                Some(k) => k < final(self).areas().len()
                    && final(self).cursor() <= final(self).areas()[k as int].last_frame(),
                None => final(self).cursor() == old(self).cursor(),
            },
    {
        proof {
            use_type_invariant(&*self);
        }
        let best = lowest_area(&self.areas, self.next_free_frame.number);
        match best {
            Some(k) => {
                let start_frame = Frame::containing_address(self.areas[k].base_addr);
                if self.next_free_frame.number < start_frame.number {
                    self.next_free_frame = start_frame;
                }
                self.current_area = Some(k);
            },
            None => {
                self.current_area = None;
            },
        }
    }
}

/// Among the areas whose last frame is not below `cursor`, the place in
/// `areas` of the first of those with the lowest base address.
#[verifier::rlimit(30)]
fn lowest_area(areas: &Vec<MemoryArea>, cursor: u64) -> (best: Option<usize>)
    requires
        forall|i: int| 0 <= i < areas@.len() ==> (#[trigger] areas@[i]).valid(),
    ensures
        match best {
            Some(k) => {
                &&& k < areas@.len()
                &&& areas@[k as int].last_frame() >= cursor
                &&& forall|g: u64|
                    cursor <= g < areas@[k as int].first_frame() ==> !in_some_area(
                        areas@,
                        g as int,
                    )
            },
            None => forall|i: int|
                0 <= i < areas@.len() ==> (#[trigger] areas@[i]).last_frame() < cursor,
        },
{
    let mut best: Option<usize> = None;
    let mut i: usize = 0;
    while i < areas.len()
        invariant
            i <= areas@.len(),
            forall|j: int| 0 <= j < areas@.len() ==> (#[trigger] areas@[j]).valid(),
            match best {
                Some(k) => {
                    &&& k < i
                    &&& areas@[k as int].last_frame() >= cursor
                    &&& forall|j: int|
                        0 <= j < i && (#[trigger] areas@[j]).last_frame() >= cursor
                            ==> areas@[k as int].base_addr <= areas@[j].base_addr
                },
                None => forall|j: int|
                    0 <= j < i ==> (#[trigger] areas@[j]).last_frame() < cursor,
            },
        decreases areas@.len() - i,
    {
        let area = areas[i];
        if area.last().number >= cursor {
            let better = match best {
                Some(k) => area.base_addr < areas[k].base_addr,
                None => true,
            };
            if better {
                best = Some(i);
            }
        }
        i += 1;
    }
    proof {
        if let Some(k) = best {
            let b = areas@[k as int];
            assert forall|g: u64| cursor <= g < b.first_frame() implies !in_some_area(
                areas@,
                g as int,
            ) by {
                assert forall|j: int| 0 <= j < areas@.len() implies !(#[trigger] areas@[j]).holds(
                    g as int,
                ) by {
                    if areas@[j].last_frame() >= cursor {
                        assert(b.base_addr <= areas@[j].base_addr);
                    }
                }
            }
        }
    }
    best
}

impl FrameAllocator for AreaFrameAllocator {
    /// A frame is available where it is usable and not below the cursor.
    open spec fn available(&self, frame: u64) -> bool {
        self.cursor() <= frame && self.is_usable(frame)
    }

    /// Hands out the lowest available frame and moves the cursor past it;
    /// `None` where no frame is available.
    #[verifier::rlimit(30)]
    fn allocate_frame(&mut self) -> (frame: Option<Frame>)
        ensures
            final(self).areas() == old(self).areas(),
            final(self).kernel_range() == old(self).kernel_range(),
            final(self).multiboot_range() == old(self).multiboot_range(),
            frame matches Some(f) ==> {
                &&& old(self).available(f.number)
                &&& !old(self).is_reserved(f.number)
                &&& forall|g: u64| old(self).available(g) ==> f.number <= g
                &&& final(self).cursor() == f.number + 1
            },
            frame.is_none() ==> forall|g: u64| !old(self).available(g),
            frame.is_none() ==> forall|g: u64| !final(self).available(g),
    {
        loop
            invariant
                self.areas() == old(self).areas(),
                self.kernel_range() == old(self).kernel_range(),
                self.multiboot_range() == old(self).multiboot_range(),
                self.cursor() >= old(self).cursor(),
                forall|g: u64| old(self).cursor() <= g < self.cursor() ==> !old(self).is_usable(g),
            decreases
                    (if self.next_free_frame.number <= self.kernel_end.number {
                        2int
                    } else {
                        0int
                    }) + (if self.next_free_frame.number <= self.multiboot_end.number {
                        2int
                    } else {
                        0int
                    }) + (match self.current_area {
                        Some(k) => if self.next_free_frame.number > self.areas@[k as int].last_frame() {
                            2int
                        } else {
                            1int
                        },
                        None => 0int,
                    }),
        {
            proof {
                use_type_invariant(&*self);
            }
            match self.current_area {
                Some(k) => {
                    let area = self.areas[k];
                    let frame = Frame { number: self.next_free_frame.number };
                    let current_area_last_frame = area.last();
                    if frame.number > current_area_last_frame.number {
                        // every frame of the current area is used up
                        self.choose_next_area();
                    } else if frame.number >= self.kernel_start.number && frame.number
                        <= self.kernel_end.number {
                        // the frame belongs to the kernel image
                        self.next_free_frame = Frame { number: self.kernel_end.number + 1 };
                    } else if frame.number >= self.multiboot_start.number && frame.number
                        <= self.multiboot_end.number {
                        // the frame belongs to the boot information
                        self.next_free_frame = Frame { number: self.multiboot_end.number + 1 };
                    } else {
                        assert(area.holds(frame.number as int));
                        self.next_free_frame.number += 1;
                        return Some(frame);
                    }
                },
                None => {
                    return None;
                },
            }
        }
    }

    /// Keeps no record of `frame`: the allocator does not reclaim.
    fn deallocate_frame(&mut self, frame: Frame)
        ensures
            final(self).areas() == old(self).areas(),
            final(self).kernel_range() == old(self).kernel_range(),
            final(self).multiboot_range() == old(self).multiboot_range(),
            final(self).cursor() == old(self).cursor(),
    {
    }
}

} // verus!
