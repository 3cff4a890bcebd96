//! The physical memory manager: a frame allocator that keeps one bit for
//! each frame of the first 32 GiB of memory, set while the frame is in use.
//! Frames given back are handed out again.

use vstd::prelude::*;
use crate::bitmap::Bitmap;
use crate::bitmap::FULL_ITEM;
use crate::bitmap::bits_of;
use crate::bitmap::lemma_bit_update;
use crate::memory::Frame;
use crate::memory::frame_allocator::FrameAllocator;
use crate::memory::frame_allocator::MemoryArea;
use crate::memory::frame_allocator::in_some_area;
use crate::memory::paging::MAX_FRAMES;

verus! {

/// Words of the frame bitmap.
pub const FRAME_BITMAP_SIZE: usize = 131072;

/// `bits` with the bits from `first` to `last`, both included, set to `value`.
pub open spec fn marked(bits: Seq<bool>, first: int, last: int, value: bool) -> Seq<bool> {
    Seq::new(
        bits.len(),
        |i: int|
            if first <= i <= last {
                value
            } else {
                bits[i]
            },
    )
}

/// Whether the frames that hold a byte of the `length` bytes from `address`
/// on all have a bit in the frame bitmap.
pub open spec fn covered(address: u64, length: u64) -> bool {
    length > 0 ==> address + length - 1 <= u64::MAX && (address + length - 1) / 0x1000
        < MAX_FRAMES
}

/// Whether `frame` is what an allocator hands out whose bitmap is `used`
/// and whose cursor is `cursor`: the lowest free frame at or after the cursor
/// rounded down to a multiple of 64, or `None` where none is free from there
/// on.
pub open spec fn lowest_free(used: Seq<bool>, cursor: int, frame: Option<Frame>) -> bool {
    match frame {
        Some(f) => {
            &&& cursor / 64 * 64 <= f.number < used.len()
            &&& !used[f.number as int]
            &&& forall|j: int| cursor / 64 * 64 <= j < f.number ==> used[j]
        },
        None => forall|j: int| cursor / 64 * 64 <= j < used.len() ==> used[j],
    }
}

/// The bitmap once `frame` was given back: the frame is free.
pub open spec fn released(used: Seq<bool>, frame: u64) -> Seq<bool> {
    used.update(frame as int, false)
}

/// The cursor once `frame` was given back: it is lowered to the frame where
/// it lay above.
pub open spec fn lowered(cursor: int, frame: u64) -> int {
    if cursor <= frame {
        cursor
    } else {
        frame as int
    }
}

/// A frame that was given back is handed out again before any frame above
/// it: the next frame handed out is the frame itself or one below it, and
/// the frame itself where every frame from the start of the search up to it
/// is in use.
pub proof fn lemma_freed_frame_is_reused(
    used: Seq<bool>,
    cursor: int,
    freed: u64,
    next: Option<Frame>,
)
    requires
        0 <= cursor,
        freed < used.len(),
        lowest_free(released(used, freed), lowered(cursor, freed), next),
    ensures
        next matches Some(f) && f.number <= freed,
        (forall|j: int| lowered(cursor, freed) / 64 * 64 <= j < freed ==> used[j]) ==> next
            == Some(Frame { number: freed }),
{
    let now = released(used, freed);
    let from = lowered(cursor, freed) / 64 * 64;
    assert(from <= freed);
    assert(!now[freed as int]);
    if forall|j: int| from <= j < freed ==> used[j] {
        let f = next.unwrap();
        if f.number < freed {
            assert(now[f.number as int] == used[f.number as int]);
        }
    }
}

/// A frame allocator over a bitmap of the frames in use.
pub struct BitmapFrameAllocator {
    frame_bitmap: Bitmap,
    next_free_frame: usize,
}

impl BitmapFrameAllocator {
    #[verifier::type_invariant]
    spec fn inv(self) -> bool {
        self.frame_bitmap@.len() == MAX_FRAMES && self.next_free_frame <= MAX_FRAMES
    }

    /// For each frame with a bit in the bitmap, whether it is in use.
    pub closed spec fn used(&self) -> Seq<bool> {
        self.frame_bitmap@
    }

    /// The index at which the search for a free frame starts, rounded down
    /// to a multiple of 64.
    pub closed spec fn cursor(&self) -> int {
        self.next_free_frame as int
    }

    /// An allocator in which every frame is in use.
    pub fn new() -> (allocator: BitmapFrameAllocator)
        ensures
            allocator.used() == Seq::new(MAX_FRAMES as nat, |i: int| true),
            allocator.cursor() == 0,
    {
        let mut data: Vec<u64> = Vec::new();
        let mut i: usize = 0;
        while i < FRAME_BITMAP_SIZE
            invariant
                i <= FRAME_BITMAP_SIZE,
                data@.len() == i,
                forall|j: int| 0 <= j < i ==> data@[j] == FULL_ITEM,
            decreases FRAME_BITMAP_SIZE - i,
        {
            data.push(FULL_ITEM);
            i += 1;
        }
        assert forall|j: int| 0 <= j < MAX_FRAMES implies bits_of(data@)[j] by {
            lemma_bit_update(data@[j / 64], 0, (j % 64) as u64);
        }
        assert(bits_of(data@) =~= Seq::new(MAX_FRAMES as nat, |i: int| true));
        BitmapFrameAllocator { frame_bitmap: Bitmap::new(data), next_free_frame: 0 }
    }

    #[verifier::rlimit(30)]
    fn mark(&mut self, address: u64, length: u64, value: bool)
        requires
            covered(address, length),
        ensures
            final(self).cursor() == old(self).cursor(),
            final(self).used().len() == MAX_FRAMES,
            length == 0 ==> final(self).used() == old(self).used(),
            length > 0 ==> final(self).used() == marked(
                old(self).used(),
                address as int / 0x1000,
                (address + length - 1) / 0x1000,
                value,
            ),
    {
        proof {
            use_type_invariant(&*self);
        }
        if length == 0 {
            return ;
        }
        let start_frame = Frame::containing_address(address);
        let end_frame = Frame::containing_address(address + (length - 1));
        let mut number: usize = start_frame.number as usize;
        let last: usize = end_frame.number as usize;
        while number <= last
            invariant
                start_frame.number <= number <= last + 1,
                last == end_frame.number,
                last < MAX_FRAMES,
                self.frame_bitmap@.len() == MAX_FRAMES,
                self.next_free_frame == old(self).next_free_frame,
                self.next_free_frame <= MAX_FRAMES,
                self.frame_bitmap@ == marked(
                    old(self).used(),
                    start_frame.number as int,
                    number - 1,
                    value,
                ),
            decreases last + 1 - number,
        {
            self.frame_bitmap.set(number, value);
            number += 1;
        }
    }

    /// Marks as free the frames that hold a byte of the `length` bytes from
    /// `address` on.
    pub fn mark_area_as_available(&mut self, address: u64, length: u64)
        requires
            covered(address, length),
        ensures
            final(self).cursor() == old(self).cursor(),
            final(self).used().len() == MAX_FRAMES,
            length == 0 ==> final(self).used() == old(self).used(),
            length > 0 ==> final(self).used() == marked(
                old(self).used(),
                address as int / 0x1000,
                (address + length - 1) / 0x1000,
                false,
            ),
    {
        self.mark(address, length, false)
    }

    /// Marks as in use the frames that hold a byte of the `length` bytes from
    /// `address` on.
    pub fn mark_area_in_use(&mut self, address: u64, length: u64)
        requires
            covered(address, length),
        ensures
            final(self).cursor() == old(self).cursor(),
            final(self).used().len() == MAX_FRAMES,
            length == 0 ==> final(self).used() == old(self).used(),
            length > 0 ==> final(self).used() == marked(
                old(self).used(),
                address as int / 0x1000,
                (address + length - 1) / 0x1000,
                true,
            ),
    {
        self.mark(address, length, true)
    }
}

impl FrameAllocator for BitmapFrameAllocator {
    /// A frame is available where it has a bit in the bitmap and the bit is
    /// unset.
    open spec fn available(&self, frame: u64) -> bool {
        frame < self.used().len() && !self.used()[frame as int]
    }

    /// Hands out the lowest free frame at or after the cursor rounded down
    /// to a multiple of 64, marks it as in use and moves the cursor past it.
    /// `None`, and nothing changes, where no frame from there on is free.
    fn allocate_frame(&mut self) -> (frame: Option<Frame>)
        ensures
            lowest_free(old(self).used(), old(self).cursor(), frame),
            match frame {
                Some(f) => {
                    &&& old(self).cursor() / 64 * 64 <= f.number < old(self).used().len()
                    &&& !old(self).used()[f.number as int]
                    &&& forall|j: int| old(self).cursor() / 64 * 64 <= j < f.number ==> old(self).used()[j]
                    &&& final(self).used() == old(self).used().update(f.number as int, true)
                    &&& final(self).cursor() == f.number + 1
                },
                None => {
                    &&& forall|j: int|
                        old(self).cursor() / 64 * 64 <= j < old(self).used().len() ==> old(self).used()[j]
                    &&& final(self).used() == old(self).used()
                    &&& final(self).cursor() == old(self).cursor()
                },
            },
    {
        proof {
            use_type_invariant(&*self);
        }
        if let Some(number) = self.frame_bitmap.first_unset(self.next_free_frame) {
            self.frame_bitmap.set(number, true);
            self.next_free_frame = number + 1;
            Some(Frame { number: number as u64 })
        } else {
            None
        }
    }

    /// Marks `frame` as free and lowers the cursor to it where the cursor
    /// lies above.  A frame without a bit in the bitmap is ignored.
    fn deallocate_frame(&mut self, frame: Frame)
        ensures
            frame.number < old(self).used().len() ==> {
                &&& final(self).used() == released(old(self).used(), frame.number)
                &&& final(self).cursor() == lowered(old(self).cursor(), frame.number)
            },
            frame.number >= old(self).used().len() ==> {
                &&& final(self).used() == old(self).used()
                &&& final(self).cursor() == old(self).cursor()
            },
    {
        proof {
            use_type_invariant(&*self);
        }
        if frame.number < MAX_FRAMES as u64 {
            let number = frame.number as usize;
            self.frame_bitmap.set(number, false);
            if number < self.next_free_frame {
                self.next_free_frame = number;
            }
        }
    }
}

/// Sets `allocator` up from what the boot loader reports: the frames of
/// `memory_areas` are free, but for those that hold a byte below
/// `kernel_end`, the first address after the kernel image.
#[verifier::rlimit(30)]
pub fn init(allocator: &mut BitmapFrameAllocator, memory_areas: &Vec<MemoryArea>, kernel_end: u64)
    requires
        covered(0, kernel_end),
        forall|i: int|
            0 <= i < memory_areas@.len() ==> (#[trigger] memory_areas@[i]).valid() && covered(
                memory_areas@[i].base_addr,
                memory_areas@[i].length,
            ),
    ensures
        final(allocator).cursor() == old(allocator).cursor(),
        final(allocator).used().len() == MAX_FRAMES,
        forall|frame: int|
            0 <= frame < MAX_FRAMES ==> #[trigger] final(allocator).used()[frame] == (if frame
                * 0x1000 < kernel_end {
                true
            } else if in_some_area(memory_areas@, frame) {
                false
            } else {
                old(allocator).used()[frame]
            }),
{
    let mut i: usize = 0;
    while i < memory_areas.len()
        invariant
            i <= memory_areas@.len(),
            allocator.cursor() == old(allocator).cursor(),
            allocator.used().len() == old(allocator).used().len(),
            forall|k: int|
                0 <= k < memory_areas@.len() ==> (#[trigger] memory_areas@[k]).valid() && covered(
                    memory_areas@[k].base_addr,
                    memory_areas@[k].length,
                ),
            forall|frame: int|
                0 <= frame < allocator.used().len() ==> #[trigger] allocator.used()[frame] == (if in_some_area(
                    memory_areas@.take(i as int),
                    frame,
                ) {
                    false
                } else {
                    old(allocator).used()[frame]
                }),
        decreases memory_areas@.len() - i,
    {
        let area = memory_areas[i];
        let ghost before = allocator.used();
        allocator.mark_area_as_available(area.base_addr, area.length);
        proof {
            let shorter = memory_areas@.take(i as int);
            let longer = memory_areas@.take(i + 1);
            assert forall|frame: int| 0 <= frame implies (in_some_area(longer, frame)
                <==> in_some_area(shorter, frame) || area.holds(frame)) by {
                if in_some_area(longer, frame) {
                    let k = choose|k: int| 0 <= k < longer.len() && #[trigger] longer[k].holds(frame);
                    if k < i {
                        assert(shorter[k].holds(frame));
                    }
                }
                if in_some_area(shorter, frame) {
                    let k = choose|k: int|
                        0 <= k < shorter.len() && #[trigger] shorter[k].holds(frame);
                    assert(longer[k].holds(frame));
                }
                if area.holds(frame) {
                    assert(longer[i as int].holds(frame));
                }
            }
        }
        i += 1;
    }
    assert(memory_areas@.take(i as int) =~= memory_areas@);
    allocator.mark_area_in_use(0x0, kernel_end);
}

} // verus!
