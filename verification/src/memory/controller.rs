//! The memory manager of the kernel, set up once at boot.

use vstd::prelude::*;
use crate::memory::PAGE_SIZE;
use crate::memory::Page;
use crate::memory::boot_info::BootInformation;
use crate::memory::boot_info::ElfSection;
use crate::memory::frame_allocator::AreaFrameAllocator;
use crate::memory::frame_allocator::MemoryArea;
use crate::memory::frame_allocator::in_some_area;
use crate::memory::heap::HEAP_END_PAGE;
use crate::memory::heap::HEAP_FLAGS;
use crate::memory::heap::HEAP_START_PAGE;
use crate::memory::heap;
use crate::memory::is_page_number;
use crate::memory::p4_index_of;
use crate::memory::paging::ActivePageTable;
use crate::memory::paging::PagingError;
use crate::memory::paging::entry::lemma_word_frame_bound;
use crate::memory::paging::entry::word_present;
use crate::memory::paging::layout::is_tree;
use crate::memory::paging::layout::settled;
use crate::memory::paging::mapper::flagged;
use crate::memory::paging::mapper::top_table;
use crate::memory::paging::remap::KERNEL_FRAMES;
use crate::memory::paging::remap::KERNEL_OFFSET_PAGE;
use crate::memory::paging::remap::at_fault;
use crate::memory::paging::remap::kernel_pages_mapped;
use crate::memory::paging::remap;
use crate::memory::paging::table_error;
use crate::memory::stack_allocator::Stack;
use crate::memory::stack_allocator::StackAllocator;

verus! {

/// Pages set aside for stacks, above the heap.
pub const STACK_PAGES: u64 = 101;

/// Whether `start` and `end` bound the sections of `sections` that occupy
/// memory: `start` is the lowest address at which one of them starts, `end`
/// the highest address at which one of them ends.
pub open spec fn bounds_kernel(sections: Seq<ElfSection>, start: u64, end: u64) -> bool {
    &&& exists|i: int|
        0 <= i < sections.len() && (#[trigger] sections[i]).allocated() && sections[i].addr == start
    &&& exists|i: int|
        0 <= i < sections.len() && (#[trigger] sections[i]).allocated() && sections[i].addr
            + sections[i].size == end
    &&& forall|i: int|
        0 <= i < sections.len() && (#[trigger] sections[i]).allocated() ==> start
            <= sections[i].addr && sections[i].addr + sections[i].size <= end
}

/// The lowest address at which a section that occupies memory starts, and
/// the highest address at which one ends.  Refused where no section occupies
/// memory, and where one ends beyond the end of the address space.
#[verifier::rlimit(30)]
pub fn kernel_bounds(sections: &Vec<ElfSection>) -> (result: Result<(u64, u64), PagingError>)
    ensures
        result matches Ok((start, end)) ==> bounds_kernel(sections@, start, end),
        result matches Err(e) ==> e == PagingError::MissingBootTag || e
            == PagingError::InvalidRange,
        (forall|i: int| 0 <= i < sections@.len() ==> !(#[trigger] sections@[i]).allocated())
            ==> result == Err::<(u64, u64), PagingError>(PagingError::MissingBootTag),
        (exists|i: int|
            0 <= i < sections@.len() && (#[trigger] sections@[i]).allocated() && sections@[i].addr
                + sections@[i].size > u64::MAX) ==> result == Err::<(u64, u64), PagingError>(
            PagingError::InvalidRange,
        ),
        (exists|i: int| 0 <= i < sections@.len() && (#[trigger] sections@[i]).allocated()) && (
        forall|i: int|
            0 <= i < sections@.len() && (#[trigger] sections@[i]).allocated() ==> sections@[i].addr
                + sections@[i].size <= u64::MAX) ==> result.is_ok(),
{
    let mut bounds: Option<(u64, u64)> = None;
    let mut i: usize = 0;
    while i < sections.len()
        invariant
            i <= sections@.len(),
            forall|k: int|
                0 <= k < i && (#[trigger] sections@[k]).allocated() ==> sections@[k].addr
                    + sections@[k].size <= u64::MAX,
            match bounds {
                Some((start, end)) => bounds_kernel(sections@.take(i as int), start, end),
                None => forall|k: int| 0 <= k < i ==> !(#[trigger] sections@[k]).allocated(),
            },
        decreases sections@.len() - i,
    {
        let section = sections[i];
        let ghost seen = sections@.take(i as int);
        let ghost more = sections@.take(i + 1);
        assert(forall|k: int| 0 <= k < i ==> seen[k] == more[k]);
        assert(more[i as int] == section);
        if section.is_allocated() {
            if section.size > u64::MAX - section.addr {
                return Err(PagingError::InvalidRange);
            }
            let section_end = section.end_address();
            bounds = match bounds {
                Some((start, end)) => {
                    proof {
                        let lo = choose|k: int|
                            0 <= k < seen.len() && (#[trigger] seen[k]).allocated() && seen[k].addr
                                == start;
                        let hi = choose|k: int|
                            0 <= k < seen.len() && (#[trigger] seen[k]).allocated() && seen[k].addr
                                + seen[k].size == end;
                        assert(more[lo].allocated() && more[hi].allocated());
                    }
                    Some(
                        (
                            if section.addr < start {
                                section.addr
                            } else {
                                start
                            },
                            if section_end > end {
                                section_end
                            } else {
                                end
                            },
                        ),
                    )
                },
                None => Some((section.addr, section_end)),
            };
        } else {
            proof {
                if let Some((start, end)) = bounds {
                    let lo = choose|k: int|
                        0 <= k < seen.len() && (#[trigger] seen[k]).allocated() && seen[k].addr
                            == start;
                    let hi = choose|k: int|
                        0 <= k < seen.len() && (#[trigger] seen[k]).allocated() && seen[k].addr
                            + seen[k].size == end;
                    assert(more[lo].allocated() && more[hi].allocated());
                }
            }
        }
        i += 1;
    }
    assert(sections@.take(i as int) =~= sections@);
    match bounds {
        Some(bounds) => Ok(bounds),
        None => Err(PagingError::MissingBootTag),
    }
}

/// Whether every area of `areas` holds at least one byte and ends within the
/// address space.
pub fn areas_valid(areas: &Vec<MemoryArea>) -> (valid: bool)
    ensures
        valid == forall|i: int| 0 <= i < areas@.len() ==> (#[trigger] areas@[i]).valid(),
{
    let mut i: usize = 0;
    while i < areas.len()
        invariant
            i <= areas@.len(),
            forall|k: int| 0 <= k < i ==> (#[trigger] areas@[k]).valid(),
        decreases areas@.len() - i,
    {
        if !areas[i].is_valid() {
            return false;
        }
        i += 1;
    }
    true
}

/// Whether the boot information `boot_info`, or the root table in force in
/// frame `root`, is refused with the error `error` before any frame is
/// taken: a table of the boot information is missing, or no section
/// occupies memory; a section that occupies memory, or a memory area, ends
/// beyond the address space, or a memory area is empty; or the root table
/// lies in a frame that the kernel cannot see above `KERNEL_OFFSET`.
pub open spec fn refused(boot_info: BootInformation, root: u64, error: PagingError) -> bool {
    if boot_info.memory_areas.is_none() || boot_info.elf_sections.is_none() {
        error == PagingError::MissingBootTag
    } else {
        let sections = boot_info.elf_sections.unwrap()@;
        let areas = boot_info.memory_areas.unwrap()@;
        if forall|i: int| 0 <= i < sections.len() ==> !(#[trigger] sections[i]).allocated() {
            error == PagingError::MissingBootTag
        } else {
            error == PagingError::InvalidRange && {
                ||| exists|i: int|
                    0 <= i < sections.len() && (#[trigger] sections[i]).allocated() && sections[i].addr
                        + sections[i].size > u64::MAX
                ||| exists|i: int| 0 <= i < areas.len() && !(#[trigger] areas[i]).valid()
                ||| root >= KERNEL_FRAMES
            }
        }
    }
}

/// Whether `allocator` is the allocator that `init` makes from the boot
/// information `boot_info`, for a kernel image between the addresses
/// `kernel.0` and `kernel.1`: it has the memory areas of the boot
/// information, passes over the frames of the kernel image and of the boot
/// information, and has handed out no frame yet.
pub open spec fn made_from(
    allocator: AreaFrameAllocator,
    boot_info: BootInformation,
    kernel: (u64, u64),
) -> bool {
    &&& boot_info.memory_areas.is_some()
    &&& allocator.areas() == boot_info.memory_areas.unwrap()@
    &&& allocator.kernel_range() == (kernel.0 / PAGE_SIZE, kernel.1 / PAGE_SIZE)
    &&& allocator.multiboot_range() == (
        boot_info.start_address / PAGE_SIZE,
        boot_info.end_address / PAGE_SIZE,
    )
    &&& forall|g: u64|
        in_some_area(boot_info.memory_areas.unwrap()@, g as int) ==> allocator.cursor() <= g
}

/// The memory manager: the address space in force, the allocator of frames
/// and the allocator of stacks.
pub struct MemoryController {
    pub active_table: ActivePageTable,
    pub frame_allocator: AreaFrameAllocator,
    pub stack_allocator: StackAllocator,
}

impl MemoryController {
    /// Makes a stack of `size_in_pages` pages below a guard page.
    pub fn alloc_stack(&mut self, size_in_pages: usize) -> (result: Result<
        Option<Stack>,
        PagingError,
    >)
        ensures
            final(self).active_table.mapper.root() == old(self).active_table.mapper.root(),
            size_in_pages == 0 || old(self).stack_allocator.pages().len() <= size_in_pages ==> {
                &&& result matches Ok(None)
                &&& final(self).stack_allocator.pages() == old(self).stack_allocator.pages()
                &&& final(self).active_table.mapper.words() == old(self).active_table.mapper.words()
                &&& final(self).frame_allocator == old(self).frame_allocator
            },
            size_in_pages != 0 && old(self).stack_allocator.pages().len() > size_in_pages ==> {
                &&& final(self).stack_allocator.pages() == old(self).stack_allocator.pages().skip(
                    size_in_pages + 1,
                )
                &&& !(result matches Ok(None))
            },
            result matches Ok(Some(stack)) ==> {
                &&& stack.bottom_address() == old(self).stack_allocator.pages()[1] * PAGE_SIZE
                &&& stack.top_address() == old(self).stack_allocator.pages()[size_in_pages as int]
                    * PAGE_SIZE + PAGE_SIZE
            },
    {
        self.stack_allocator.alloc_stack(
            &mut self.active_table,
            &mut self.frame_allocator,
            size_in_pages,
        )
    }
}

/// Sets the memory manager up from the boot information: an allocator over
/// the memory areas that are free, without the frames of the kernel image
/// and of the boot information; the address space of the kernel, put in
/// force; the heap; and, above the heap, the pages for stacks.
///
/// Boot information that `refused` speaks of is turned down before a frame
/// is taken.  After that the result is that of `remap::init` on the
/// allocator made from the boot information and, where that succeeds, that
/// of `heap::init` on what it left: an error of either is handed on, and
/// with both done the memory manager is returned.
#[verifier::rlimit(30)]
pub fn init(active_table: ActivePageTable, boot_info: &BootInformation) -> (result: Result<
    MemoryController,
    PagingError,
>)
    ensures
        boot_info.memory_areas.is_none() || boot_info.elf_sections.is_none() ==> result matches Err(
            PagingError::MissingBootTag,
        ),
        (exists|e: PagingError| refused(*boot_info, active_table.mapper.root(), e)) ==> (
        result matches Err(e) && refused(*boot_info, active_table.mapper.root(), e)),
        result matches Err(e) ==> refused(*boot_info, active_table.mapper.root(), e) || at_fault(
            *boot_info,
            e,
        ) || table_error(e),
        !(exists|e: PagingError| refused(*boot_info, active_table.mapper.root(), e)) ==> exists|
            start: u64,
            end: u64,
        | #[trigger]
            bounds_kernel(boot_info.elf_sections.unwrap()@, start, end) && exists|
                allocator: &mut AreaFrameAllocator,
                remapped: Result<ActivePageTable, PagingError>,
            |
            {
                &&& made_from(*allocator, *boot_info, (start, end))
                &&& #[trigger] call_ensures(
                    remap::init::<AreaFrameAllocator>,
                    (active_table, allocator, boot_info),
                    remapped,
                )
                &&& remapped matches Err(e) ==> result == Err::<MemoryController, PagingError>(e)
                &&& remapped matches Ok(table) ==> exists|
                    remapped_table: &mut ActivePageTable,
                    rest: &mut AreaFrameAllocator,
                    heaped: Result<Page, PagingError>,
                |
                    {
                        &&& *remapped_table == table
                        &&& *rest == *final(allocator)
                        &&& #[trigger] call_ensures(
                            heap::init::<AreaFrameAllocator>,
                            (remapped_table, rest),
                            heaped,
                        )
                        &&& heaped matches Err(e) ==> result == Err::<
                            MemoryController,
                            PagingError,
                        >(e)
                        &&& heaped is Ok ==> result is Ok
                            && result->Ok_0.active_table == *final(remapped_table)
                            && result->Ok_0.frame_allocator == *final(rest)
                    }
            },
        result matches Ok(controller) ==> {
            &&& boot_info.memory_areas.is_some()
            &&& boot_info.elf_sections.is_some()
            &&& controller.active_table.mapper.root() != active_table.mapper.root()
            &&& top_table(
                controller.active_table.mapper.words(),
                controller.active_table.mapper.root(),
            ) == Some(controller.active_table.mapper.root())
            &&& is_tree(controller.active_table.mapper, controller.frame_allocator)
            &&& kernel_pages_mapped(
                controller.active_table,
                *boot_info,
                (active_table.mapper.root() + KERNEL_OFFSET_PAGE) as u64,
            )
            &&& forall|page: u64|
                HEAP_START_PAGE <= page <= HEAP_END_PAGE ==> #[trigger] flagged(
                    controller.active_table.mapper.words(),
                    controller.active_table.mapper.root(),
                    page,
                    HEAP_FLAGS,
                )
            &&& controller.stack_allocator.pages() == crate::memory::frame_range(
                HEAP_END_PAGE + 1,
                HEAP_END_PAGE + STACK_PAGES,
            )
        },
{
    let ghost old_root = active_table.mapper.root();
    let memory_areas = match &boot_info.memory_areas {
        Some(areas) => areas,
        None => {
            assert(refused(*boot_info, old_root, PagingError::MissingBootTag));
            return Err(PagingError::MissingBootTag);
        },
    };
    let sections = match &boot_info.elf_sections {
        Some(sections) => sections,
        None => {
            assert(refused(*boot_info, old_root, PagingError::MissingBootTag));
            return Err(PagingError::MissingBootTag);
        },
    };
    let (kernel_start, kernel_end) = match kernel_bounds(sections) {
        Ok(bounds) => bounds,
        Err(e) => {
            assert(refused(*boot_info, old_root, e));
            return Err(e);
        },
    };
    if !areas_valid(memory_areas) {
        assert(refused(*boot_info, old_root, PagingError::InvalidRange));
        return Err(PagingError::InvalidRange);
    }
    proof {
        if old_root >= KERNEL_FRAMES {
            assert(refused(*boot_info, old_root, PagingError::InvalidRange));
        }
    }
    let mut frame_allocator = AreaFrameAllocator::new(
        kernel_start,
        kernel_end,
        boot_info.start_address,
        boot_info.end_address,
        memory_areas.clone(),
    );
    let mut active_table = match remap::init(active_table, &mut frame_allocator, boot_info) {
        Ok(table) => table,
        Err(e) => {
            return Err(e);
        },
    };
    let ghost remapped = active_table;
    let heap_end_page = match heap::init(&mut active_table, &mut frame_allocator) {
        Ok(page) => page,
        Err(e) => {
            return Err(e);
        },
    };
    proof {
        let guard = (old_root + KERNEL_OFFSET_PAGE) as u64;
        let root = remapped.mapper.root();
        let heap = crate::memory::frame_range(HEAP_START_PAGE as int, HEAP_END_PAGE as int);
        let done = choose|done: Map<u64, u64>|
            #![trigger crate::memory::paging::remap::covers(*boot_info, done)]
            crate::memory::paging::remap::covers(*boot_info, done) && forall|page: u64| #[trigger]
                done.contains_key(page) && page != guard ==> is_page_number(page) && p4_index_of(
                    page,
                ) != 511 && word_present(done[page]) && settled(
                    remapped.mapper.words(),
                    root,
                    page,
                    done[page],
                );
        lemma_word_frame_bound(0);
        assert forall|page: u64| #[trigger] done.contains_key(page) && page != guard implies is_page_number(
            page,
        ) && p4_index_of(page) != 511 && word_present(done[page]) && settled(
            active_table.mapper.words(),
            active_table.mapper.root(),
            page,
            done[page],
        ) by {
            assert(settled(remapped.mapper.words(), root, page, done[page]));
            if heap.contains(page as int) {
                let i = choose|i: int| 0 <= i < heap.len() && heap[i] == page as int;
                assert(settled(remapped.mapper.words(), root, heap[i] as u64, done[page]));
            }
        }
        assert forall|page: u64| HEAP_START_PAGE <= page <= HEAP_END_PAGE implies #[trigger] flagged(
            active_table.mapper.words(),
            active_table.mapper.root(),
            page,
            HEAP_FLAGS,
        ) by {
            assert(heap[page - HEAP_START_PAGE] == page);
        }
    }
    let stack_alloc_start = match Page::from_number(heap_end_page.number() + 1) {
        Some(page) => page,
        None => {
            return Err(PagingError::NonCanonicalAddress);
        },
    };
    let stack_alloc_end = match Page::from_number(stack_alloc_start.number() + 100) {
        Some(page) => page,
        None => {
            return Err(PagingError::NonCanonicalAddress);
        },
    };
    let stack_alloc_range = Page::range_inclusive(stack_alloc_start, stack_alloc_end);
    let stack_allocator = StackAllocator::new(stack_alloc_range);
    Ok(MemoryController { active_table, frame_allocator, stack_allocator })
}

} // verus!
