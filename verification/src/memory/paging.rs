//! Page tables: the entry encoding, the tables, and the operations that
//! translate, map and unmap pages, in the address space in force and in
//! address spaces that are yet to be put in force.

use vstd::prelude::*;
use crate::memory::Frame;
use crate::memory::PAGE_SIZE;
use crate::memory::Page;
use crate::memory::PhysicalAddress;
use crate::memory::VirtualAddress;
use crate::memory::frame_allocator::FrameAllocator;
use crate::memory::frame_allocator::hands_out;
use crate::memory::is_page_number;
use crate::memory::p1_index_of;
use crate::memory::p4_index_of;
use crate::memory::paging::entry::Entry;
use crate::memory::paging::entry::EntryFlags;
use crate::memory::paging::entry::FRAME_LIMIT;
use crate::memory::paging::entry::PRESENT;
use crate::memory::paging::entry::WRITABLE;
use crate::memory::paging::entry::encode;
use crate::memory::paging::entry::lemma_encode_decode;
use crate::memory::paging::entry::word_flags;
use crate::memory::paging::entry::word_present;
use crate::memory::paging::mapper::Mapper;
use crate::memory::paging::mapper::TlbFlush;
use crate::memory::paging::mapper::address_translation;
use crate::memory::paging::mapper::huge_on_way;
use crate::memory::paging::mapper::keeps_tree;
use crate::memory::paging::mapper::keeps_tree_without;
use crate::memory::paging::mapper::leaf_entry;
use crate::memory::paging::mapper::leaf_table;
use crate::memory::paging::mapper::leaf_table_from;
use crate::memory::paging::mapper::maps_page;
use crate::memory::paging::mapper::on_partial_way;
use crate::memory::paging::mapper::only_absent_or_taken;
use crate::memory::paging::mapper::path_tables;
use crate::memory::paging::mapper::plain_way;
use crate::memory::paging::mapper::starved;
use crate::memory::paging::mapper::taken_between;
use crate::memory::paging::mapper::top_table;
use crate::memory::paging::mapper::translation;
use crate::memory::paging::mapper::unmap_outcome;
use crate::memory::paging::table::Level1;
use crate::memory::paging::table::RECURSIVE_INDEX;
use crate::memory::paging::table::Table;
use crate::memory::paging::table::lemma_table_flags;
use crate::memory::paging::temp_page::TemporaryPage;
use crate::memory::paging::temp_page::pinned_with;
use crate::memory::paging::temp_page::pool_ready;
use crate::memory::paging::temp_page::window_error;
use crate::memory::ram::PhysicalMemory;

pub mod entry;
pub mod layout;
pub mod mapper;
pub mod remap;
pub mod table;
pub mod temp_page;

verus! {

/// Number of slots of a page table.
pub const ENTRY_COUNT: usize = 512;

/// Frames that the frame bitmap covers: 32 GiB of physical memory.
pub const MAX_FRAMES: usize = 8388608;

/// Why an operation on the page tables was refused.
#[derive(Debug, Clone, Copy, PartialEq, Eq, Structural)]
pub enum PagingError {
    /// A virtual address whose upper bits do not all equal bit 47.
    NonCanonicalAddress,
    /// A huge-page entry whose frame does not start on its own size.
    MisalignedHugePage,
    /// The page to be mapped is mapped already.
    PageAlreadyMapped,
    /// The page to be unmapped is not mapped.
    PageNotMapped,
    /// A frame was needed and the allocator had none.
    OutOfFrames,
    /// A huge-page entry lies on the way to the entry of the page.
    HugePage,
    /// A frame whose index is too large for a page-table entry.
    InvalidFrame,
    /// The frame offered for a new table holds a table that is in use.
    TableInUse,
    /// The recursive slot of the root table does not name the root table.
    NoRecursiveMapping,
    /// The entry of the page is the recursive slot of the root table.
    RecursiveSlot,
    /// The boot information lacks a part that is needed.
    MissingBootTag,
    /// A section of the boot image that does not start on a page boundary.
    MisalignedSection,
    /// A section of the boot image outside the kernel's part of the address
    /// space.
    SectionOutsideKernel,
    /// A part of the boot information whose end lies before its start, or
    /// beyond the end of the address space.
    InvalidRange,
}

/// Whether `error` is one that the page tables, a frame or the allocator
/// give rise to, and not the boot information.
pub open spec fn table_error(error: PagingError) -> bool {
    error == PagingError::NonCanonicalAddress || error == PagingError::MisalignedHugePage || error
        == PagingError::PageAlreadyMapped || error == PagingError::PageNotMapped || error
        == PagingError::OutOfFrames || error == PagingError::HugePage || error
        == PagingError::InvalidFrame || error == PagingError::TableInUse || error
        == PagingError::NoRecursiveMapping || error == PagingError::RecursiveSlot
}

/// The entry that names the table in frame `frame`, present and writable.
pub open spec fn table_entry(frame: u64) -> u64 {
    encode(frame, PRESENT | WRITABLE)
}

/// Whether `after` is `before` once the page with index `page` was mapped
/// onto the root table, with the tables on the way to its entry pinned and
/// new ones among them in frames that `taken` holds of, and the recursive
/// slot of the root table was then written to.
pub open spec fn entered(before: Mapper, after: Mapper, page: u64, taken: spec_fn(u64) -> bool)
    -> bool {
    let root = before.root();
    let mapped = after.words().insert((root, 511), before.words()[(root, 511)]);
    &&& maps_page(
        before.words(),
        mapped,
        before.pinned().insert(root),
        root,
        page,
        table_entry(root),
        path_tables(mapped, root, page),
        taken,
    )
    &&& after.pinned() == pinned_with(before.pinned(), path_tables(mapped, root, page))
    &&& leaf_table_from(mapped, root, page) matches Some(p1) && mapped[(p1, p1_index_of(page))]
        == table_entry(root)
}

/// Whether `leave` turns the machine `before` into the machine `after`
/// with the result `result`, where the window onto the root table lies in
/// frame `window` and the temporary page has the index `page`: the
/// recursive slot of that table names the table again and the whole
/// translation cache is to be invalidated; then the temporary page is
/// unmapped, and translates to nothing, or the error says why it cannot be.
pub open spec fn left(
    before: Mapper,
    after: Mapper,
    window: u64,
    page: u64,
    result: Result<(), PagingError>,
) -> bool {
    let restored = before.words().insert((window, 511), table_entry(window));
    let outcome = unmap_outcome(restored, before.root(), page);
    &&& after.root() == before.root()
    &&& match result {
        Err(e) => outcome == Err::<Frame, PagingError>(e) && after.words() == restored
            && after.pending() == before.pending().push(TlbFlush::All),
        Ok(_) => leaf_table(restored, before.root(), page) matches Some(p1) && outcome.is_ok()
            && after.words() == restored.insert((p1, p1_index_of(page)), 0) && after.pending()
            == before.pending().push(TlbFlush::All).push(
            TlbFlush::Page((page * PAGE_SIZE) as u64),
        ) && after.pinned() == Set::<u64>::empty() && translation(
            after.words(),
            after.root(),
            page,
        ) == Ok::<Option<Frame>, PagingError>(None),
    }
}

/// The error with which `enter` is refused on the machine `mapper`, for
/// the address space with its top table in frame `table` and the temporary
/// page with index `page`, before anything is written: a frame that no
/// entry can name, a root table that does not name itself, or what
/// `window_error` gives.
pub open spec fn entry_error(mapper: Mapper, table: u64, page: u64) -> Option<PagingError> {
    if mapper.root() >= FRAME_LIMIT || table >= FRAME_LIMIT {
        Some(PagingError::InvalidFrame)
    } else if top_table(mapper.words(), mapper.root()) != Some(mapper.root()) {
        Some(PagingError::NoRecursiveMapping)
    } else {
        window_error(mapper, page)
    }
}

/// Whether the temporary page with index `page` and the pool `pool` can be
/// mapped on the machine `mapper` so that the frame `frame` is then seen
/// through it and stays clear of the tables on the way: the page is not
/// mapped; the frame can be named in an entry, holds neither the root table
/// nor a table on the way to the entry of the page, as far as the way is
/// there, and is not in the pool; and either the entry of the page is there,
/// empty and in a table of its own, or no entry on the way is marked as a
/// huge page and the pool is ready to supply the tables that are missing.
pub open spec fn window_opens(mapper: Mapper, pool: Set<u64>, page: u64, frame: u64) -> bool {
    &&& frame < FRAME_LIMIT
    &&& frame != mapper.root()
    &&& translation(mapper.words(), mapper.root(), page) == Ok::<Option<Frame>, PagingError>(None)
    &&& !on_partial_way(mapper.words(), mapper.root(), page, frame)
    &&& !pool.contains(frame)
    &&& if leaf_entry(mapper.words(), mapper.root(), page).is_some() {
        leaf_entry(mapper.words(), mapper.root(), page) == Some(0u64) && plain_way(
            mapper.words(),
            mapper.root(),
            page,
        )
    } else {
        !huge_on_way(mapper.words(), mapper.root(), page) && pool_ready(pool, mapper, page)
    }
}

/// Whether `enter` is owed to succeed on the machine `mapper` for the
/// address space with its top table in frame `table`, the temporary page
/// with index `page` and the pool `pool`: the frames can be named in an
/// entry; the root table names itself; the frame `table` is not pinned; and
/// the temporary page can be mapped clear of `table`, as `window_opens`
/// says.
pub open spec fn can_enter(mapper: Mapper, pool: Set<u64>, table: u64, page: u64) -> bool {
    &&& mapper.root() < FRAME_LIMIT
    &&& top_table(mapper.words(), mapper.root()) == Some(mapper.root())
    &&& !mapper.pinned().contains(table)
    &&& window_opens(mapper, pool, page, table)
}

/// The address space in force, and the machine that it is in force on.
pub struct ActivePageTable {
    pub mapper: Mapper,
}

impl ActivePageTable {
    /// The address space with its root table in `root`, in force on a
    /// machine with the memory `memory`.
    pub fn new(memory: PhysicalMemory, root: Frame) -> (active_table: ActivePageTable)
        ensures
            active_table.mapper.words() == memory@,
            active_table.mapper.root() == root.number,
            active_table.mapper.pending() == Seq::<TlbFlush>::empty(),
    {
        ActivePageTable { mapper: Mapper::new(memory, root) }
    }

    /// The physical address that the virtual address `virtual_address`
    /// translates to; `None` where its page is not mapped.
    #[verifier::rlimit(30)]
    pub fn translate(&self, virtual_address: VirtualAddress) -> (result: Result<
        Option<PhysicalAddress>,
        PagingError,
    >)
        ensures
            result == address_translation(self.mapper.words(), self.mapper.root(), virtual_address),
    {
        self.mapper.translate(virtual_address)
    }

    /// The frame behind `page`; `None` where the page is not mapped.  A
    /// huge-page entry in a table of level 3 or 2 ends the walk: the frame
    /// is then counted from the frame that the entry names, which starts on
    /// a multiple of 1 GiB or 2 MiB.
    #[verifier::rlimit(30)]
    pub fn translate_page(&self, page: Page) -> (result: Result<Option<Frame>, PagingError>)
        ensures
            result == translation(self.mapper.words(), self.mapper.root(), page.index()),
    {
        self.mapper.translate_page(page)
    }

    /// Maps `page` to `frame` with `flags`, and marks the entry present.
    /// Tables that are missing on the way to the entry are made from frames
    /// of `allocator`.  An entry that is in use is never overwritten.
    #[verifier::rlimit(30)]
    pub fn map_to<A: FrameAllocator>(
        &mut self,
        page: Page,
        frame: Frame,
        flags: EntryFlags,
        allocator: &mut A,
    ) -> (result: Result<(), PagingError>)
        ensures
            final(self).mapper.root() == old(self).mapper.root(),
            final(self).mapper.pinned() == old(self).mapper.pinned(),
            final(self).mapper.pending() == old(self).mapper.pending(),
            final(self).mapper.words()[(old(self).mapper.root(), 511)] == old(self).mapper.words()[(
                old(self).mapper.root(),
                511,
            )],
            frame.number >= FRAME_LIMIT ==> result == Err::<(), PagingError>(
                PagingError::InvalidFrame,
            ),
            frame.number < FRAME_LIMIT && top_table(old(self).mapper.words(), old(self).mapper.root()).is_none()
                ==> result == Err::<(), PagingError>(PagingError::NoRecursiveMapping),
            result == Err::<(), PagingError>(PagingError::NoRecursiveMapping) ==> top_table(
                old(self).mapper.words(),
                old(self).mapper.root(),
            ).is_none(),
            result == Err::<(), PagingError>(PagingError::HugePage) <==> frame.number
                < FRAME_LIMIT && huge_on_way(old(self).mapper.words(), old(self).mapper.root(), page.index()),
            result == Err::<(), PagingError>(PagingError::HugePage) ==> final(self).mapper.words() == old(self).mapper.words() && *final(allocator) == *old(allocator),
            result == Err::<(), PagingError>(PagingError::PageAlreadyMapped) ==> leaf_entry(
                old(self).mapper.words(),
                old(self).mapper.root(),
                page.index(),
            ).is_some() && leaf_entry(old(self).mapper.words(), old(self).mapper.root(), page.index()) != Some(
                0u64,
            ),
            frame.number < FRAME_LIMIT && (result == Err::<(), PagingError>(
                PagingError::OutOfFrames,
            ) || result == Err::<(), PagingError>(PagingError::InvalidFrame) || result == Err::<
                (),
                PagingError,
            >(PagingError::TableInUse)) ==> exists|a: &mut A, got: Option<Frame>, lineage: Set<u64>|
                call_ensures(A::allocate_frame, (a,), got) && *final(a) == *final(allocator)
                    && #[trigger] starved(
                    *old(allocator),
                    *a,
                    got,
                    lineage,
                    old(self).mapper.pinned().insert(old(self).mapper.root()),
                    old(self).mapper.words(),
                    old(self).mapper.root(),
                    page.index(),
                    result->Err_0,
                ),
            frame.number < FRAME_LIMIT ==> (leaf_table(
                old(self).mapper.words(),
                old(self).mapper.root(),
                page.index(),
            ) matches Some(p1) ==> {
                &&& *final(allocator) == *old(allocator)
                &&& old(self).mapper.words()[(p1, p1_index_of(page.index()))] != 0 ==> result == Err::<
                    (),
                    PagingError,
                >(PagingError::PageAlreadyMapped)
                &&& old(self).mapper.words()[(p1, p1_index_of(page.index()))] == 0 ==> result.is_ok()
                    && final(self).mapper.words() == old(self).mapper.words().insert(
                    (p1, p1_index_of(page.index())),
                    encode(frame.number, flags.value() | PRESENT),
                )
            }),
            result matches Err(e) ==> e == PagingError::InvalidFrame || e
                == PagingError::NoRecursiveMapping || e == PagingError::HugePage || e
                == PagingError::OutOfFrames || e == PagingError::TableInUse || e
                == PagingError::PageAlreadyMapped,
            result matches Err(e) ==> (frame.number >= FRAME_LIMIT || e
                == PagingError::NoRecursiveMapping || e == PagingError::PageAlreadyMapped
                ==> final(self).mapper.words() == old(self).mapper.words() && *final(allocator) == *old(allocator)),
            result.is_ok() ==> {
                &&& translation(final(self).mapper.words(), final(self).mapper.root(), page.index()) == Ok::<
                    Option<Frame>,
                    PagingError,
                >(Some(frame))
                &&& leaf_table(final(self).mapper.words(), final(self).mapper.root(), page.index()) matches Some(
                    p1,
                ) && final(self).mapper.words()[(p1, p1_index_of(page.index()))] == encode(
                    frame.number,
                    flags.value() | PRESENT,
                )
                &&& top_table(old(self).mapper.words(), old(self).mapper.root()) matches Some(p4) && maps_page(
                    old(self).mapper.words(),
                    final(self).mapper.words(),
                    old(self).mapper.pinned().insert(old(self).mapper.root()),
                    p4,
                    page.index(),
                    encode(frame.number, flags.value() | PRESENT),
                    path_tables(final(self).mapper.words(), p4, page.index()),
                    taken_between(*old(allocator), *final(allocator)),
                )
            },
            only_absent_or_taken(
                old(self).mapper.words(),
                final(self).mapper.words(),
                taken_between(*old(allocator), *final(allocator)),
            ),
            forall|g: u64|
                #[trigger] final(allocator).available(g) ==> old(allocator).available(g),
            result.is_ok() && p4_index_of(page.index()) != 511 ==> keeps_tree(
                old(self).mapper,
                *old(allocator),
                final(self).mapper,
                *final(allocator),
                page.index(),
            ),
    {
        self.mapper.map_to(page, frame, flags, allocator)
    }

    /// Maps `page` to a frame taken from `allocator`.
    #[verifier::rlimit(30)]
    pub fn map<A: FrameAllocator>(&mut self, page: Page, flags: EntryFlags, allocator: &mut A) -> (result:
        Result<(), PagingError>)
        ensures
            final(self).mapper.root() == old(self).mapper.root(),
            final(self).mapper.pinned() == old(self).mapper.pinned(),
            final(self).mapper.pending() == old(self).mapper.pending(),
            final(self).mapper.words()[(old(self).mapper.root(), 511)] == old(self).mapper.words()[(
                old(self).mapper.root(),
                511,
            )],
            result matches Err(e) ==> e == PagingError::InvalidFrame || e
                == PagingError::NoRecursiveMapping || e == PagingError::HugePage || e
                == PagingError::OutOfFrames || e == PagingError::TableInUse || e
                == PagingError::PageAlreadyMapped,
            result.is_ok() ==> {
                &&& translation(
                    final(self).mapper.words(),
                    final(self).mapper.root(),
                    page.index(),
                ) matches Ok(Some(frame)) && taken_between(*old(allocator), *final(allocator))(
                    frame.number,
                )
                &&& leaf_table(final(self).mapper.words(), final(self).mapper.root(), page.index()) matches Some(
                    p1,
                ) && word_flags(final(self).mapper.words()[(p1, p1_index_of(page.index()))])
                    == flags.value() | PRESENT && word_present(
                    final(self).mapper.words()[(p1, p1_index_of(page.index()))],
                )
            },
            result.is_ok() ==> (leaf_table(
                old(self).mapper.words(),
                old(self).mapper.root(),
                page.index(),
            ) matches Some(p1) ==> old(self).mapper.words()[(p1, p1_index_of(page.index()))] == 0),
            (forall|g: u64| !old(allocator).available(g)) ==> result == Err::<(), PagingError>(
                PagingError::OutOfFrames,
            ) && final(self).mapper.words() == old(self).mapper.words(),
            result.is_ok() ==> exists|between: A| #[trigger]
                hands_out(
                    *old(allocator),
                    translation(final(self).mapper.words(), final(self).mapper.root(), page.index()).unwrap().unwrap(),
                    between,
                ) && forall|g: u64| #[trigger]
                    final(allocator).available(g) ==> between.available(g),
            result.is_ok() && p4_index_of(page.index()) != 511 ==> exists|between: A|
                {
                    &&& #[trigger] keeps_tree(
                        old(self).mapper,
                        between,
                        final(self).mapper,
                        *final(allocator),
                        page.index(),
                    )
                    &&& forall|g: u64|
                        #[trigger] between.available(g) ==> old(allocator).available(g)
                    &&& forall|g: u64| !old(allocator).available(g) ==> !between.available(g)
                },
            only_absent_or_taken(
                old(self).mapper.words(),
                final(self).mapper.words(),
                taken_between(*old(allocator), *final(allocator)),
            ),
            forall|g: u64|
                #[trigger] final(allocator).available(g) ==> old(allocator).available(g),
    {
        self.mapper.map(page, flags, allocator)
    }

    /// Maps the page whose index is that of `frame` to `frame`: the address
    /// of every byte of the frame is then its own translation.
    #[verifier::rlimit(30)]
    pub fn identity_map<A: FrameAllocator>(
        &mut self,
        frame: Frame,
        flags: EntryFlags,
        allocator: &mut A,
    ) -> (result: Result<(), PagingError>)
        ensures
            final(self).mapper.root() == old(self).mapper.root(),
            final(self).mapper.pinned() == old(self).mapper.pinned(),
            final(self).mapper.pending() == old(self).mapper.pending(),
            final(self).mapper.words()[(old(self).mapper.root(), 511)] == old(self).mapper.words()[(
                old(self).mapper.root(),
                511,
            )],
            frame.number >= FRAME_LIMIT ==> result == Err::<(), PagingError>(
                PagingError::InvalidFrame,
            ),
            frame.number < FRAME_LIMIT && !is_page_number(frame.number) ==> result == Err::<
                (),
                PagingError,
            >(PagingError::NonCanonicalAddress),
            frame.number < FRAME_LIMIT && is_page_number(frame.number) && top_table(
                old(self).mapper.words(),
                old(self).mapper.root(),
            ).is_none() ==> result == Err::<(), PagingError>(PagingError::NoRecursiveMapping),
            frame.number < FRAME_LIMIT && is_page_number(frame.number) ==> (leaf_table(
                old(self).mapper.words(),
                old(self).mapper.root(),
                frame.number,
            ) matches Some(p1) ==> {
                &&& *final(allocator) == *old(allocator)
                &&& old(self).mapper.words()[(p1, p1_index_of(frame.number))] != 0 ==> result == Err::<
                    (),
                    PagingError,
                >(PagingError::PageAlreadyMapped)
                &&& old(self).mapper.words()[(p1, p1_index_of(frame.number))] == 0 ==> result.is_ok()
                    && final(self).mapper.words() == old(self).mapper.words().insert(
                    (p1, p1_index_of(frame.number)),
                    encode(frame.number, flags.value() | PRESENT),
                )
            }),
            result matches Err(e) ==> e == PagingError::InvalidFrame || e
                == PagingError::NonCanonicalAddress || e == PagingError::NoRecursiveMapping || e
                == PagingError::HugePage || e == PagingError::OutOfFrames || e
                == PagingError::TableInUse || e == PagingError::PageAlreadyMapped,
            result matches Err(e) ==> (frame.number >= FRAME_LIMIT || e
                == PagingError::NonCanonicalAddress || e == PagingError::NoRecursiveMapping || e
                == PagingError::PageAlreadyMapped ==> final(self).mapper.words() == old(self).mapper.words()
                && *final(allocator) == *old(allocator)),
            result.is_ok() ==> {
                &&& translation(final(self).mapper.words(), final(self).mapper.root(), frame.number) == Ok::<
                    Option<Frame>,
                    PagingError,
                >(Some(frame))
                &&& is_page_number(frame.number)
                &&& top_table(old(self).mapper.words(), old(self).mapper.root()) matches Some(p4) && maps_page(
                    old(self).mapper.words(),
                    final(self).mapper.words(),
                    old(self).mapper.pinned().insert(old(self).mapper.root()),
                    p4,
                    frame.number,
                    encode(frame.number, flags.value() | PRESENT),
                    path_tables(final(self).mapper.words(), p4, frame.number),
                    taken_between(*old(allocator), *final(allocator)),
                )
                &&& keeps_tree(
                    old(self).mapper,
                    *old(allocator),
                    final(self).mapper,
                    *final(allocator),
                    frame.number,
                )
            },
            only_absent_or_taken(
                old(self).mapper.words(),
                final(self).mapper.words(),
                taken_between(*old(allocator), *final(allocator)),
            ),
            forall|g: u64|
                #[trigger] final(allocator).available(g) ==> old(allocator).available(g),
    {
        self.mapper.identity_map(frame, flags, allocator)
    }

    /// Takes the mapping of `page` away, as `unmap_page` does, and gives the
    /// frame that was behind the page back to `allocator`.
    #[verifier::rlimit(30)]
    pub fn unmap<A: FrameAllocator>(&mut self, page: Page, allocator: &mut A) -> (result: Result<
        (),
        PagingError,
    >)
        ensures
            result.is_ok() <==> unmap_outcome(
                old(self).mapper.words(),
                old(self).mapper.root(),
                page.index(),
            ).is_ok(),
            result matches Err(e) ==> unmap_outcome(
                old(self).mapper.words(),
                old(self).mapper.root(),
                page.index(),
            ) == Err::<Frame, PagingError>(e),
            final(self).mapper.root() == old(self).mapper.root(),
            final(self).mapper.pinned() == old(self).mapper.pinned(),
            final(self).mapper.words()[(old(self).mapper.root(), 511)] == old(self).mapper.words()[(
                old(self).mapper.root(),
                511,
            )],
            result.is_err() ==> final(self).mapper.words() == old(self).mapper.words() && final(self).mapper.pending()
                == old(self).mapper.pending() && *final(allocator) == *old(allocator),
            result.is_ok() ==> {
                &&& leaf_table(old(self).mapper.words(), old(self).mapper.root(), page.index()) matches Some(
                    p1,
                ) && final(self).mapper.words() == old(self).mapper.words().insert(
                    (p1, p1_index_of(page.index())),
                    0,
                )
                &&& final(self).mapper.pending() == old(self).mapper.pending().push(
                    TlbFlush::Page((page.index() * PAGE_SIZE) as u64),
                )
                &&& translation(final(self).mapper.words(), final(self).mapper.root(), page.index()) == Ok::<
                    Option<Frame>,
                    PagingError,
                >(None)
                &&& unmap_outcome(
                    old(self).mapper.words(),
                    old(self).mapper.root(),
                    page.index(),
                ) matches Ok(frame) && forall|g: u64|
                    g != frame.number ==> #[trigger] final(allocator).available(g) == old(allocator).available(g)
            },
            result.is_ok() ==> exists|a: &mut A|
                *a == *old(allocator) && *final(a) == *final(allocator) && call_ensures(
                    A::deallocate_frame,
                    (a, unmap_outcome(old(self).mapper.words(), old(self).mapper.root(), page.index()).unwrap()),
                    (),
                ),
            result.is_ok() && p4_index_of(page.index()) != 511 ==> keeps_tree_without(
                old(self).mapper,
                *old(allocator),
                final(self).mapper,
                *final(allocator),
                page.index(),
                Some(
                    unmap_outcome(old(self).mapper.words(), old(self).mapper.root(), page.index()).unwrap().number,
                ),
            ),
    {
        self.mapper.unmap(page, allocator)
    }

    /// Makes the top table of `table` stand in for the top table of the
    /// address space in force: the recursive slot of the root table is made
    /// to name it, and the whole translation cache is to be invalidated.
    /// From then on the operations of the mapper work on `table`.  The
    /// temporary page is mapped onto the root table first, and the window
    /// that this gives is handed out, so that the slot can be set back.
    /// Refused where the top table of `table` lies in a frame that holds a
    /// table on the way to the temporary page.
    #[verifier::rlimit(30)]
    pub fn enter(&mut self, table: &InactivePageTable, temporary_page: &mut TemporaryPage) -> (result:
        Result<Table<Level1>, PagingError>)
        ensures
            final(self).mapper.root() == old(self).mapper.root(),
            final(temporary_page).page_index() == old(temporary_page).page_index(),
            final(temporary_page).pool().subset_of(old(temporary_page).pool()),
            result.is_err() ==> final(self).mapper.words()[(old(self).mapper.root(), 511)] == old(self).mapper.words()[(old(self).mapper.root(), 511)],
            result matches Err(e) ==> table_error(e),
            can_enter(
                old(self).mapper,
                old(temporary_page).pool(),
                table.frame_number(),
                old(temporary_page).page_index(),
            ) ==> result.is_ok(),
            entry_error(
                old(self).mapper,
                table.frame_number(),
                old(temporary_page).page_index(),
            ) matches Some(e) ==> result == Err::<Table<Level1>, PagingError>(e) && final(self).mapper.words() == old(self).mapper.words() && *final(temporary_page) == *old(temporary_page),
            old(self).mapper.root() >= FRAME_LIMIT || table.frame_number() >= FRAME_LIMIT
                ==> result matches Err(PagingError::InvalidFrame),
            old(self).mapper.root() < FRAME_LIMIT && table.frame_number() < FRAME_LIMIT
                && top_table(old(self).mapper.words(), old(self).mapper.root()) != Some(
                old(self).mapper.root(),
            ) ==> result matches Err(PagingError::NoRecursiveMapping),
            result matches Ok(window) ==> {
                &&& window.frame_number() == old(self).mapper.root()
                &&& old(self).mapper.root() < FRAME_LIMIT
                &&& table.frame_number() < FRAME_LIMIT
                &&& top_table(old(self).mapper.words(), old(self).mapper.root()) == Some(
                    old(self).mapper.root(),
                )
                &&& final(self).mapper.pending() == old(self).mapper.pending().push(TlbFlush::All)
                &&& final(self).mapper.words()[(old(self).mapper.root(), 511)] == table_entry(
                    table.frame_number(),
                )
                &&& top_table(final(self).mapper.words(), final(self).mapper.root()) == Some(
                    table.frame_number(),
                )
                &&& !final(self).mapper.pinned().contains(table.frame_number())
                &&& entered(
                    old(self).mapper,
                    final(self).mapper,
                    old(temporary_page).page_index(),
                    |g: u64|
                        old(temporary_page).pool().contains(g) && !final(temporary_page).pool().contains(g),
                )
            },
    {
        let backup = self.mapper.root_frame();
        if backup.number >= FRAME_LIMIT || table.p4_frame.number >= FRAME_LIMIT {
            return Err(PagingError::InvalidFrame);
        }
        let proper = match self.mapper.p4() {
            Some(p4) => p4.frame().number == backup.number,
            None => false,
        };
        if !proper {
            return Err(PagingError::NoRecursiveMapping);
        }
        // map the temporary page onto the root table in force
        let window = match temporary_page.map_table_frame(backup.clone(), self) {
            Ok(window) => window,
            Err(e) => {
                return Err(e);
            },
        };
        if self.mapper.is_pinned(&table.p4_frame) {
            let _ = temporary_page.unmap(self);
            return Err(PagingError::TableInUse);
        }
        let ghost mapped = self.mapper.words();
        // overwrite the recursive mapping
        let root_table = self.mapper.root_table();
        let mut entry = Entry(0);
        entry.set(table.p4_frame.clone(), EntryFlags::from_bits_truncate(PRESENT | WRITABLE));
        proof {
            lemma_table_flags();
            lemma_encode_decode(table.frame_number(), PRESENT | WRITABLE);
            old(self).mapper.lemma_words_total();
            self.mapper.lemma_words_total();
        }
        self.mapper.set_entry(&root_table, RECURSIVE_INDEX, entry);
        self.mapper.flush(TlbFlush::All);
        proof {
            let slot = (old(self).mapper.root(), 511int);
            assert(self.mapper.words().insert(slot, old(self).mapper.words()[slot]) =~= mapped);
        }
        Ok(window)
    }

    /// Undoes `enter`: through `window`, the recursive slot of the root
    /// table is made to name the root table again, the whole translation
    /// cache is to be invalidated, and the temporary page is unmapped.
    #[verifier::rlimit(30)]
    pub fn leave(&mut self, window: Table<Level1>, temporary_page: &mut TemporaryPage) -> (result:
        Result<(), PagingError>)
        requires
            window.frame_number() < FRAME_LIMIT,
        ensures
            final(self).mapper.root() == old(self).mapper.root(),
            *final(temporary_page) == *old(temporary_page),
            old(self).mapper.root() == window.frame_number() ==> final(self).mapper.words()[(
                window.frame_number(),
                511,
            )] == table_entry(window.frame_number()),
            left(
                old(self).mapper,
                final(self).mapper,
                window.frame_number(),
                old(temporary_page).page_index(),
                result,
            ),
            result.is_ok() <==> unmap_outcome(
                old(self).mapper.words().insert(
                    (window.frame_number(), 511),
                    table_entry(window.frame_number()),
                ),
                old(self).mapper.root(),
                old(temporary_page).page_index(),
            ).is_ok(),
            result matches Err(e) ==> table_error(e),
            result matches Err(e) ==> {
                &&& unmap_outcome(
                    old(self).mapper.words().insert(
                        (window.frame_number(), 511),
                        table_entry(window.frame_number()),
                    ),
                    old(self).mapper.root(),
                    old(temporary_page).page_index(),
                ) == Err::<Frame, PagingError>(e)
                &&& final(self).mapper.words() == old(self).mapper.words().insert(
                    (window.frame_number(), 511),
                    table_entry(window.frame_number()),
                )
                &&& final(self).mapper.pending() == old(self).mapper.pending().push(TlbFlush::All)
            },
            result.is_ok() ==> {
                &&& final(self).mapper.pinned() == Set::<u64>::empty()
                &&& leaf_table(
                    old(self).mapper.words().insert(
                        (window.frame_number(), 511),
                        table_entry(window.frame_number()),
                    ),
                    old(self).mapper.root(),
                    old(temporary_page).page_index(),
                ) matches Some(p1) && final(self).mapper.words() == old(self).mapper.words().insert(
                    (window.frame_number(), 511),
                    table_entry(window.frame_number()),
                ).insert((p1, p1_index_of(old(temporary_page).page_index())), 0)
                &&& final(self).mapper.pending() == old(self).mapper.pending().push(
                    TlbFlush::All,
                ).push(TlbFlush::Page((old(temporary_page).page_index() * PAGE_SIZE) as u64))
            },
    {
        // restore the recursive mapping to the root table
        let mut entry = Entry(0);
        entry.set(window.frame(), EntryFlags::from_bits_truncate(PRESENT | WRITABLE));
        proof {
            lemma_table_flags();
        }
        self.mapper.set_entry(&window, RECURSIVE_INDEX, entry);
        self.mapper.flush(TlbFlush::All);
        temporary_page.unmap(self)
    }

    /// Runs `f` on the address space `table`, which is not in force.  For
    /// the time that `f` runs, the recursive slot of the root table names the
    /// top table of `table`, so that the operations of the mapper work on
    /// `table`.  Afterwards the slot names the root table again, whatever
    /// `f` wrote elsewhere, as long as `f` left the same address space in
    /// force, and the temporary page is mapped to nothing.
    ///
    /// Where `table` cannot be entered, `f` is not run, and the error says
    /// why; `entry_error` gives the errors that come before anything is
    /// written, and `can_enter` says when `f` is run for certain.  Where
    /// `f` was run, the machine is what `leave` makes of the machine that
    /// `f` left.
    #[verifier::rlimit(30)]
    pub fn with<F>(
        &mut self,
        table: &mut InactivePageTable,
        temporary_page: &mut TemporaryPage,
        f: F,
    ) -> (result: Result<(), PagingError>) where F: FnOnce(&mut ActivePageTable)
        requires
            forall|active: &mut ActivePageTable|
                active.mapper.root() == old(self).mapper.root() && top_table(
                    active.mapper.words(),
                    active.mapper.root(),
                ) == Some(old(table).frame_number()) ==> #[trigger] f.requires((active,)),
        ensures
            *final(table) == *old(table),
            final(temporary_page).page_index() == old(temporary_page).page_index(),
            final(temporary_page).pool().subset_of(old(temporary_page).pool()),
            old(self).mapper.root() >= FRAME_LIMIT || old(table).frame_number() >= FRAME_LIMIT
                ==> result matches Err(PagingError::InvalidFrame),
            old(self).mapper.root() < FRAME_LIMIT && old(table).frame_number() < FRAME_LIMIT
                && top_table(old(self).mapper.words(), old(self).mapper.root()) != Some(
                old(self).mapper.root(),
            ) ==> result matches Err(PagingError::NoRecursiveMapping),
            result.is_ok() ==> top_table(old(self).mapper.words(), old(self).mapper.root())
                == Some(old(self).mapper.root()),
            result matches Err(e) ==> table_error(e),
            entry_error(
                old(self).mapper,
                old(table).frame_number(),
                old(temporary_page).page_index(),
            ) matches Some(e) ==> result == Err::<(), PagingError>(e) && final(self).mapper.words() == old(self).mapper.words() && *final(temporary_page) == *old(temporary_page),
            result.is_ok() || can_enter(
                old(self).mapper,
                old(temporary_page).pool(),
                old(table).frame_number(),
                old(temporary_page).page_index(),
            ) ==> exists|active: &mut ActivePageTable|
                {
                    &&& #[trigger] f.ensures((active,), ())
                    &&& active.mapper.root() == old(self).mapper.root()
                    &&& top_table(active.mapper.words(), active.mapper.root()) == Some(
                        old(table).frame_number(),
                    )
                    &&& active.mapper.words()[(old(self).mapper.root(), 511)] == table_entry(
                        old(table).frame_number(),
                    )
                    &&& entered(
                        old(self).mapper,
                        active.mapper,
                        old(temporary_page).page_index(),
                        |g: u64|
                            old(temporary_page).pool().contains(g) && !final(temporary_page).pool().contains(g),
                    )
                    &&& left(
                        final(active).mapper,
                        final(self).mapper,
                        old(self).mapper.root(),
                        old(temporary_page).page_index(),
                        result,
                    )
                },
            result.is_ok() ==> translation(
                final(self).mapper.words(),
                final(self).mapper.root(),
                old(temporary_page).page_index(),
            ) == Ok::<Option<Frame>, PagingError>(None),
            final(self).mapper.root() == old(self).mapper.root() && old(self).mapper.words()[(
                old(self).mapper.root(),
                511,
            )] == table_entry(old(self).mapper.root()) ==> final(self).mapper.words()[(
                old(self).mapper.root(),
                511,
            )] == old(self).mapper.words()[(old(self).mapper.root(), 511)],
    {
        let window = match self.enter(table, temporary_page) {
            Ok(window) => window,
            Err(e) => {
                return Err(e);
            },
        };
        // execute f in the new context
        f(self);
        self.leave(window, temporary_page)
    }

    /// Puts the address space `new_table` in force, and gives the address
    /// space that was in force until then.
    pub fn switch(&mut self, new_table: InactivePageTable) -> (old_table: InactivePageTable)
        ensures
            old_table.frame_number() == old(self).mapper.root(),
            final(self).mapper.root() == new_table.frame_number(),
            final(self).mapper.words() == old(self).mapper.words(),
            final(self).mapper.pending() == old(self).mapper.pending(),
            final(self).mapper.pinned() == old(self).mapper.pinned(),
    {
        let old_table = InactivePageTable { p4_frame: self.mapper.root_frame() };
        self.mapper.set_root(new_table.p4_frame);
        old_table
    }
}

/// An address space that is not in force.
pub struct InactivePageTable {
    p4_frame: Frame,
}

impl InactivePageTable {
    /// The index of the frame that holds the top table of the address space.
    pub closed spec fn frame_number(&self) -> u64 {
        self.p4_frame.number
    }

    /// The frame that holds the top table of the address space.
    pub fn p4_frame(&self) -> (frame: Frame)
        ensures
            frame.number == self.frame_number(),
    {
        self.p4_frame.clone()
    }

    /// An empty address space with its top table in `frame`.  Through the
    /// temporary page the frame is emptied and the recursive slot of the new
    /// table is made to name the table itself, so that the address space can
    /// be walked as soon as it is put in force.  A frame that holds the root
    /// table in force, or that unmapping the temporary page writes to, is
    /// refused.
    #[verifier::rlimit(30)]
    pub fn new(frame: Frame, active_table: &mut ActivePageTable, temporary_page: &mut TemporaryPage) -> (result:
        Result<InactivePageTable, PagingError>)
        ensures
            final(active_table).mapper.root() == old(active_table).mapper.root(),
            final(temporary_page).page_index() == old(temporary_page).page_index(),
            final(temporary_page).pool().subset_of(old(temporary_page).pool()),
            frame.number == old(active_table).mapper.root() ==> result matches Err(
                PagingError::TableInUse,
            ),
            frame.number != old(active_table).mapper.root() && frame.number >= FRAME_LIMIT
                ==> result matches Err(PagingError::InvalidFrame),
            result matches Err(e) ==> table_error(e),
            window_opens(
                old(active_table).mapper,
                old(temporary_page).pool(),
                old(temporary_page).page_index(),
                frame.number,
            ) ==> result.is_ok(),
            frame.number != old(active_table).mapper.root() && frame.number < FRAME_LIMIT ==> (
            window_error(
                old(active_table).mapper,
                old(temporary_page).page_index(),
            ) matches Some(e) ==> result == Err::<InactivePageTable, PagingError>(e) && final(active_table).mapper.words() == old(active_table).mapper.words() && *final(temporary_page) == *old(temporary_page)),
            result matches Ok(table) ==> {
                &&& table.frame_number() == frame.number
                &&& frame.number < FRAME_LIMIT
                &&& frame.number != old(active_table).mapper.root()
                &&& forall|index: int|
                    0 <= index < 511 ==> #[trigger] final(active_table).mapper.words()[(
                        frame.number,
                        index,
                    )] == 0
                &&& final(active_table).mapper.words()[(frame.number, 511)] == table_entry(
                    frame.number,
                )
                &&& final(active_table).mapper.pinned() == Set::<u64>::empty()
                &&& top_table(final(active_table).mapper.words(), frame.number) == Some(
                    frame.number,
                )
                &&& translation(
                    final(active_table).mapper.words(),
                    final(active_table).mapper.root(),
                    old(temporary_page).page_index(),
                ) == Ok::<Option<Frame>, PagingError>(None)
                &&& final(active_table).mapper.words()[(old(active_table).mapper.root(), 511)]
                    == old(active_table).mapper.words()[(old(active_table).mapper.root(), 511)]
            },
    {
        if frame.number == active_table.mapper.root_frame().number {
            return Err(PagingError::TableInUse);
        }
        if frame.number >= FRAME_LIMIT {
            return Err(PagingError::InvalidFrame);
        }
        let number = frame.number;
        let table = match temporary_page.map_table_frame(frame.clone(), active_table) {
            Ok(table) => table,
            Err(e) => {
                return Err(e);
            },
        };
        proof {
            active_table.mapper.lemma_words_total();
        }
        // now the table can be emptied
        active_table.mapper.clear_table(&table);
        // set up the recursive mapping of the table
        let mut entry = Entry(0);
        entry.set(frame, EntryFlags::from_bits_truncate(PRESENT | WRITABLE));
        proof {
            lemma_table_flags();
            lemma_encode_decode(number, PRESENT | WRITABLE);
        }
        active_table.mapper.set_entry(&table, RECURSIVE_INDEX, entry);
        match temporary_page.unmap(active_table) {
            Ok(()) => {},
            Err(e) => {
                return Err(e);
            },
        }
        if active_table.mapper.entry(&table, RECURSIVE_INDEX).0 != entry.0 {
            return Err(PagingError::TableInUse);
        }
        Ok(InactivePageTable { p4_frame: Frame { number } })
    }
}

} // verus!
