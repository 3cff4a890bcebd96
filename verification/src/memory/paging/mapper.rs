//! Translating, mapping and unmapping pages.
//!
//! A `Mapper` holds the state of the machine that paging works on: physical
//! memory, the register that names the root table of the address space in
//! force, and the invalidations of the translation cache that are still to
//! be carried out.  It reaches the tables as the kernel does, through the
//! recursive slot of the root table: the top table it works on is the one
//! that slot 511 of the root table names.

use vstd::prelude::*;
use crate::memory::Frame;
use crate::memory::PAGE_SIZE;
use crate::memory::Page;
use crate::memory::PageIter;
use crate::memory::PhysicalAddress;
use crate::memory::VirtualAddress;
use crate::memory::frame_allocator::FrameAllocator;
use crate::memory::frame_allocator::hands_out;
use crate::memory::is_canonical;
use crate::memory::is_page_number;
use crate::memory::p1_index_of;
use crate::memory::p2_index_of;
use crate::memory::p3_index_of;
use crate::memory::p4_index_of;
use crate::memory::paging::PagingError;
use crate::memory::paging::entry::Entry;
use crate::memory::paging::entry::EntryFlags;
use crate::memory::paging::entry::FRAME_LIMIT;
use crate::memory::paging::entry::PRESENT;
use crate::memory::paging::entry::encode;
use crate::memory::paging::entry::lemma_encode_decode;
use crate::memory::paging::entry::lemma_flag_bits;
use crate::memory::paging::entry::lemma_word_frame_bound;
use crate::memory::paging::entry::word_flags;
use crate::memory::paging::entry::word_frame;
use crate::memory::paging::entry::word_huge;
use crate::memory::paging::entry::word_present;
use crate::memory::paging::layout::Places;
use crate::memory::paging::layout::grown_places;
use crate::memory::paging::layout::is_tree;
use crate::memory::paging::layout::lemma_leaf_place;
use crate::memory::paging::layout::lemma_leaf_write_keeps_tree;
use crate::memory::paging::layout::lemma_map_keeps_tree;
use crate::memory::paging::layout::settled;
use crate::memory::paging::layout::tree_space;
use crate::memory::paging::table::Level4;
use crate::memory::paging::table::RECURSIVE_INDEX;
use crate::memory::paging::table::Table;
use crate::memory::paging::table::TableLevel;
use crate::memory::paging::table::child;
use crate::memory::paging::table::child_address;
use crate::memory::paging::table::refusal;
use crate::memory::paging::table::with_new_table;
use crate::memory::ram::PhysicalMemory;
use crate::memory::ram::Words;
use crate::memory::ram::cleared;

verus! {

/// An invalidation of the translation cache.
#[derive(Debug, Clone, Copy, PartialEq, Eq, Structural)]
pub enum TlbFlush {
    /// The translation of the page at this address.
    Page(VirtualAddress),
    /// Every translation.
    All,
}

/// Frames that a 1 GiB page spans.
pub const FRAMES_PER_GIB: u64 = 0x4_0000;

/// Frames that a 2 MiB page spans.
pub const FRAMES_PER_2MIB: u64 = 0x200;

/// The top table that the recursive slot of the root table in frame `root`
/// names.
pub open spec fn top_table(words: Words, root: u64) -> Option<u64> {
    child(words, root, 511)
}

/// The table of level 1 that holds the entry of the page with index `page`,
/// reached from the top table in frame `p4` through entries that name
/// tables.
pub open spec fn leaf_table_from(words: Words, p4: u64, page: u64) -> Option<u64> {
    match child(words, p4, p4_index_of(page)) {
        Some(p3) => match child(words, p3, p3_index_of(page)) {
            Some(p2) => child(words, p2, p2_index_of(page)),
            None => None,
        },
        None => None,
    }
}

/// The table of level 1 that holds the entry of the page with index `page`
/// in the address space that the recursive slot of `root` names.
pub open spec fn leaf_table(words: Words, root: u64, page: u64) -> Option<u64> {
    match top_table(words, root) {
        Some(p4) => leaf_table_from(words, p4, page),
        None => None,
    }
}

/// The entry of the page with index `page` in its table of level 1, in the
/// address space that the recursive slot of `root` names; `None` where a
/// table on the way to the entry is missing.
pub open spec fn leaf_entry(words: Words, root: u64, page: u64) -> Option<u64> {
    match leaf_table(words, root, page) {
        Some(p1) => Some(words[(p1, p1_index_of(page))]),
        None => None,
    }
}

/// What the page with index `page` translates to, walking down from the top
/// table in frame `p4`: the frame behind the page, `None` where an entry on
/// the way is absent, and an error where a huge-page entry names a frame
/// that does not start on a multiple of its size.
pub open spec fn walk(words: Words, p4: u64, page: u64) -> Result<Option<Frame>, PagingError> {
    match child(words, p4, p4_index_of(page)) {
        None => Ok(None),
        Some(p3) => {
            let e3 = words[(p3, p3_index_of(page))];
            if !word_present(e3) {
                Ok(None)
            } else if word_huge(e3) {
                if word_frame(e3) % FRAMES_PER_GIB == 0 {
                    Ok(
                        Some(
                            Frame {
                                number: (word_frame(e3) + p2_index_of(page) * 512 + p1_index_of(
                                    page,
                                )) as u64,
                            },
                        ),
                    )
                } else {
                    Err(PagingError::MisalignedHugePage)
                }
            } else {
                let e2 = words[(word_frame(e3), p2_index_of(page))];
                if !word_present(e2) {
                    Ok(None)
                } else if word_huge(e2) {
                    if word_frame(e2) % FRAMES_PER_2MIB == 0 {
                        Ok(Some(Frame { number: (word_frame(e2) + p1_index_of(page)) as u64 }))
                    } else {
                        Err(PagingError::MisalignedHugePage)
                    }
                } else {
                    let e1 = words[(word_frame(e2), p1_index_of(page))];
                    if word_present(e1) {
                        Ok(Some(Frame { number: word_frame(e1) }))
                    } else {
                        Ok(None)
                    }
                }
            }
        },
    }
}

/// What the page with index `page` translates to in the address space that
/// the recursive slot of the root table in frame `root` names.
pub open spec fn translation(words: Words, root: u64, page: u64) -> Result<
    Option<Frame>,
    PagingError,
> {
    match top_table(words, root) {
        Some(p4) => walk(words, p4, page),
        None => Err(PagingError::NoRecursiveMapping),
    }
}

/// What the virtual address `address` translates to: the address, in the
/// frame behind its page, of the byte with the same offset.
pub open spec fn address_translation(words: Words, root: u64, address: u64) -> Result<
    Option<PhysicalAddress>,
    PagingError,
> {
    if !is_canonical(address) {
        Err(PagingError::NonCanonicalAddress)
    } else {
        match translation(words, root, address / PAGE_SIZE) {
            Ok(Some(frame)) => Ok(Some((frame.number * PAGE_SIZE + address % PAGE_SIZE) as u64)),
            Ok(None) => Ok(None),
            Err(e) => Err(e),
        }
    }
}

/// What unmapping the page with index `page` comes to: the frame that was
/// behind the page, or why the page cannot be unmapped.
pub open spec fn unmap_outcome(words: Words, root: u64, page: u64) -> Result<Frame, PagingError> {
    match translation(words, root, page) {
        Err(e) => Err(e),
        Ok(None) => Err(PagingError::PageNotMapped),
        Ok(Some(frame)) => match leaf_table(words, root, page) {
            None => Err(PagingError::HugePage),
            Some(p1) => if p1 == root && p1_index_of(page) == 511 {
                Err(PagingError::RecursiveSlot)
            } else {
                Ok(frame)
            },
        },
    }
}

/// Every frame that a translation yields lies within 2 MiB above one that an
/// entry can name.
pub proof fn lemma_walk_bound(words: Words, p4: u64, page: u64)
    ensures
        walk(words, p4, page) matches Ok(Some(frame)) ==> frame.number < FRAME_LIMIT + 0x4_0000,
{
    match child(words, p4, p4_index_of(page)) {
        None => {},
        Some(p3) => {
            let e3 = words[(p3, p3_index_of(page))];
            lemma_word_frame_bound(e3);
            let e2 = words[(word_frame(e3), p2_index_of(page))];
            lemma_word_frame_bound(e2);
            let e1 = words[(word_frame(e2), p1_index_of(page))];
            lemma_word_frame_bound(e1);
        },
    }
}

/// The state of the machine that paging works on, and the operations on the
/// address space that the recursive slot of its root table names.
pub struct Mapper {
    memory: PhysicalMemory,
    root: Frame,
    flushes: Vec<TlbFlush>,
    pinned: Vec<u64>,
}

impl Mapper {
    /// The words of physical memory.
    pub closed spec fn words(&self) -> Words {
        self.memory@
    }

    /// The index of the frame that holds the root table of the address space
    /// in force.
    pub closed spec fn root(&self) -> u64 {
        self.root.number
    }

    /// The invalidations of the translation cache still to be carried out,
    /// the oldest first.
    pub closed spec fn pending(&self) -> Seq<TlbFlush> {
        self.flushes@
    }

    /// The frames, beside that of the root table in force, that no new
    /// table is put into.
    pub closed spec fn pinned(&self) -> Set<u64> {
        self.pinned@.to_set()
    }

    /// The words of memory are defined on every slot of every frame.
    pub proof fn lemma_words_total(&self)
        ensures
            forall|k: (u64, int)| self.words().contains_key(k) <==> 0 <= k.1 < 512,
    {
        self.memory.lemma_total();
    }

    /// A machine with the memory `memory` whose address space in force has
    /// its root table in `root`.
    pub fn new(memory: PhysicalMemory, root: Frame) -> (mapper: Mapper)
        ensures
            mapper.words() == memory@,
            mapper.root() == root.number,
            mapper.pending() == Seq::<TlbFlush>::empty(),
            mapper.pinned() == Set::<u64>::empty(),
    {
        let mapper = Mapper { memory, root, flushes: Vec::new(), pinned: Vec::new() };
        assert(mapper.pinned@.to_set() =~= Set::<u64>::empty());
        mapper
    }

    /// Keeps `frame` from being taken for a new table.
    pub fn pin(&mut self, frame: &Frame)
        ensures
            final(self).pinned() == old(self).pinned().insert(frame.number),
            final(self).words() == old(self).words(),
            final(self).root() == old(self).root(),
            final(self).pending() == old(self).pending(),
    {
        self.pinned.push(frame.number);
        assert forall|g: u64| self.pinned@.contains(g) <==> old(self).pinned@.contains(g) || g
            == frame.number by {
            if old(self).pinned@.contains(g) {
                let k = choose|k: int| 0 <= k < old(self).pinned@.len() && old(self).pinned@[k] == g;
                assert(self.pinned@[k] == g);
            }
            if g == frame.number {
                assert(self.pinned@[old(self).pinned@.len() as int] == g);
            }
        }
        assert(self.pinned@.to_set() =~= old(self).pinned@.to_set().insert(frame.number));
    }

    /// Whether `frame` is kept from being taken for a new table.
    pub fn is_pinned(&self, frame: &Frame) -> (pinned: bool)
        ensures
            pinned == self.pinned().contains(frame.number),
    {
        let mut i: usize = 0;
        while i < self.pinned.len()
            invariant
                i <= self.pinned@.len(),
                forall|k: int| 0 <= k < i ==> self.pinned@[k] != frame.number,
            decreases self.pinned@.len() - i,
        {
            if self.pinned[i] == frame.number {
                return true;
            }
            i += 1;
        }
        assert(!self.pinned@.contains(frame.number));
        false
    }

    /// Lets every frame be taken for a new table again, but for that of the
    /// root table in force.
    pub fn unpin_all(&mut self)
        ensures
            final(self).pinned() == Set::<u64>::empty(),
            final(self).words() == old(self).words(),
            final(self).root() == old(self).root(),
            final(self).pending() == old(self).pending(),
    {
        self.pinned = Vec::new();
        assert(self.pinned@.to_set() =~= Set::<u64>::empty());
    }

    /// The memory of the machine.
    pub fn ram(&self) -> (memory: &PhysicalMemory)
        ensures
            memory@ == self.words(),
    {
        &self.memory
    }

    /// The frame that holds the root table of the address space in force.
    pub fn root_frame(&self) -> (frame: Frame)
        ensures
            frame.number == self.root(),
    {
        self.root.clone()
    }

    /// Puts the address space with its root table in `frame` in force.
    pub fn set_root(&mut self, frame: Frame)
        ensures
            final(self).root() == frame.number,
            final(self).words() == old(self).words(),
            final(self).pending() == old(self).pending(),
            final(self).pinned() == old(self).pinned(),
    {
        self.root = frame;
    }

    /// Notes an invalidation of the translation cache that is to be carried
    /// out.
    pub fn flush(&mut self, flush: TlbFlush)
        ensures
            final(self).pending() == old(self).pending().push(flush),
            final(self).words() == old(self).words(),
            final(self).root() == old(self).root(),
            final(self).pinned() == old(self).pinned(),
    {
        self.flushes.push(flush);
    }

    /// Hands over the invalidations of the translation cache that are to be
    /// carried out, the oldest first, and notes that none is left.
    pub fn take_flushes(&mut self) -> (flushes: Vec<TlbFlush>)
        ensures
            flushes@ == old(self).pending(),
            final(self).pending() == Seq::<TlbFlush>::empty(),
            final(self).words() == old(self).words(),
            final(self).root() == old(self).root(),
            final(self).pinned() == old(self).pinned(),
    {
        let mut flushes: Vec<TlbFlush> = Vec::new();
        core::mem::swap(&mut flushes, &mut self.flushes);
        flushes
    }

    /// The entry in slot `index` of `table`.
    pub fn entry<L: TableLevel>(&self, table: &Table<L>, index: usize) -> (entry: Entry)
        requires
            index < 512,
        ensures
            entry.0 == self.words()[(table.frame_number(), index as int)],
    {
        table.entry(&self.memory, index)
    }

    /// Stores `entry` in slot `index` of `table`.
    pub fn set_entry<L: TableLevel>(&mut self, table: &Table<L>, index: usize, entry: Entry)
        requires
            index < 512,
        ensures
            final(self).words() == old(self).words().insert(
                (table.frame_number(), index as int),
                entry.0,
            ),
            final(self).root() == old(self).root(),
            final(self).pinned() == old(self).pinned(),
            final(self).pending() == old(self).pending(),
    {
        table.set_entry(&mut self.memory, index, entry);
    }

    /// Empties every slot of `table`.
    pub fn clear_table<L: TableLevel>(&mut self, table: &Table<L>)
        ensures
            final(self).words() == cleared(old(self).words(), table.frame_number()),
            final(self).root() == old(self).root(),
            final(self).pinned() == old(self).pinned(),
            final(self).pending() == old(self).pending(),
    {
        table.clear(&mut self.memory);
    }

    /// The root table in force, as the frame that it lies in.
    pub fn root_table(&self) -> (table: Table<Level4>)
        ensures
            table.frame_number() == self.root(),
            table.lineage() == self.pinned().insert(self.root()),
    {
        let table = Table::top(&self.root, &self.root, &self.pinned);
        assert(table.lineage() =~= self.pinned().insert(self.root()));
        table
    }

    /// The top table that the recursive slot of the root table names; `None`
    /// where the slot names no table.
    pub fn p4(&self) -> (table: Option<Table<Level4>>)
        ensures
            table.is_some() <==> top_table(self.words(), self.root()).is_some(),
            table matches Some(t) ==> {
                &&& Some(t.frame_number()) == top_table(self.words(), self.root())
                &&& t.frame_number() < FRAME_LIMIT
                &&& t.lineage() == self.pinned().insert(self.root()).insert(t.frame_number())
            },
    {
        let entry = Entry(self.memory.read(&self.root, RECURSIVE_INDEX));
        if entry.is_huge() {
            None
        } else {
            match entry.frame() {
                Some(frame) => Some(Table::top(&frame, &self.root, &self.pinned)),
                None => None,
            }
        }
    }

    /// The frames of the tables of level 3, 2 and 1 on the way to the entry
    /// of `page`; `None` where one of them is missing.
    pub fn path(&self, page: Page) -> (tables: Option<(Frame, Frame, Frame)>)
        ensures
            tables.is_some() <==> leaf_table(self.words(), self.root(), page.index()).is_some(),
            tables matches Some((p3, p2, p1)) ==> (p3.number, p2.number, p1.number) == path_tables(
                self.words(),
                top_table(self.words(), self.root()).unwrap(),
                page.index(),
            ),
    {
        let p4 = match self.p4() {
            Some(table) => table,
            None => {
                return None;
            },
        };
        let p3 = match p4.next_table(&self.memory, page.p4_index()) {
            Some(table) => table,
            None => {
                return None;
            },
        };
        let p2 = match p3.next_table(&self.memory, page.p3_index()) {
            Some(table) => table,
            None => {
                return None;
            },
        };
        let p1 = match p2.next_table(&self.memory, page.p2_index()) {
            Some(table) => table,
            None => {
                return None;
            },
        };
        Some((p3.frame(), p2.frame(), p1.frame()))
    }

    /// The physical address that the virtual address `virtual_address`
    /// translates to; `None` where its page is not mapped.
    #[verifier::rlimit(30)]
    pub fn translate(&self, virtual_address: VirtualAddress) -> (result: Result<
        Option<PhysicalAddress>,
        PagingError,
    >)
        ensures
            result == address_translation(self.words(), self.root(), virtual_address),
    {
        let offset = virtual_address % PAGE_SIZE;
        match Page::containing_address(virtual_address) {
            None => Err(PagingError::NonCanonicalAddress),
            Some(page) => {
                proof {
                    if let Some(p4) = top_table(self.words(), self.root()) {
                        lemma_walk_bound(self.words(), p4, page.index());
                    }
                }
                match self.translate_page(page) {
                    Ok(Some(frame)) => Ok(Some(frame.start_address() + offset)),
                    Ok(None) => Ok(None),
                    Err(e) => Err(e),
                }
            },
        }
    }

    /// The frame behind `page`; `None` where the page is not mapped.  A
    /// huge-page entry in a table of level 3 or 2 ends the walk: the frame
    /// is then counted from the frame that the entry names, which starts on
    /// a multiple of 1 GiB or 2 MiB.
    #[verifier::rlimit(30)]
    pub fn translate_page(&self, page: Page) -> (result: Result<Option<Frame>, PagingError>)
        ensures
            result == translation(self.words(), self.root(), page.index()),
    {
        let p4 = match self.p4() {
            Some(table) => table,
            None => {
                return Err(PagingError::NoRecursiveMapping);
            },
        };
        let p3 = match p4.next_table(&self.memory, page.p4_index()) {
            Some(table) => table,
            None => {
                return Ok(None);
            },
        };
        let p3_entry = p3.entry(&self.memory, page.p3_index());
        let start_frame = match p3_entry.frame() {
            Some(frame) => frame,
            None => {
                return Ok(None);
            },
        };
        if p3_entry.is_huge() {
            // a 1 GiB page
            if start_frame.number % FRAMES_PER_GIB == 0 {
                let number = start_frame.number + (page.p2_index() as u64) * 512 + (
                page.p1_index() as u64);
                return Ok(Some(Frame { number }));
            } else {
                return Err(PagingError::MisalignedHugePage);
            }
        }
        let p2 = match p3.next_table(&self.memory, page.p3_index()) {
            Some(table) => table,
            None => {
                return Ok(None);
            },
        };
        let p2_entry = p2.entry(&self.memory, page.p2_index());
        let start_frame = match p2_entry.frame() {
            Some(frame) => frame,
            None => {
                return Ok(None);
            },
        };
        if p2_entry.is_huge() {
            // a 2 MiB page
            if start_frame.number % FRAMES_PER_2MIB == 0 {
                let number = start_frame.number + (page.p1_index() as u64);
                return Ok(Some(Frame { number }));
            } else {
                return Err(PagingError::MisalignedHugePage);
            }
        }
        let p1 = match p2.next_table(&self.memory, page.p2_index()) {
            Some(table) => table,
            None => {
                return Ok(None);
            },
        };
        Ok(p1.entry(&self.memory, page.p1_index()).frame())
    }
}

/// `words` with the table in frame `table` below slot `index` of the table
/// in frame `parent`: as it is where the slot leads to that table already,
/// and with the table hung into the slot as a new one otherwise.
pub open spec fn hang(words: Words, parent: u64, index: int, table: u64) -> Words {
    if child(words, parent, index) == Some(table) {
        words
    } else {
        with_new_table(words, parent, index, table)
    }
}

/// `words` after the page with index `page` was given the entry `leaf`, on
/// the way from the top table in frame `p4` through the tables in the frames
/// `p3`, `p2` and `p1`.
pub open spec fn mapped(words: Words, p4: u64, page: u64, p3: u64, p2: u64, p1: u64, leaf: u64)
    -> Words {
    hang(
        hang(hang(words, p4, p4_index_of(page), p3), p3, p3_index_of(page), p2),
        p2,
        p2_index_of(page),
        p1,
    ).insert((p1, p1_index_of(page)), leaf)
}

/// Whether mapping the page with index `page` turned `before` into `after`
/// by way of the tables in `p3`, `p2` and `p1` below the top table in `p4`:
/// a table that was not there before lies in a frame that `taken` holds of,
/// that holds no table above it and that is not among `barred`; and the
/// entry of the page was empty.
pub open spec fn maps_page(
    before: Words,
    after: Words,
    barred: Set<u64>,
    p4: u64,
    page: u64,
    leaf: u64,
    tables: (u64, u64, u64),
    taken: spec_fn(u64) -> bool,
) -> bool {
    let (p3, p2, p1) = tables;
    let with_p3 = hang(before, p4, p4_index_of(page), p3);
    let with_p2 = hang(with_p3, p3, p3_index_of(page), p2);
    let with_p1 = hang(with_p2, p2, p2_index_of(page), p1);
    &&& after == mapped(before, p4, page, p3, p2, p1, leaf)
    &&& p3 < FRAME_LIMIT && p2 < FRAME_LIMIT && p1 < FRAME_LIMIT
    &&& child(before, p4, p4_index_of(page)) != Some(p3) ==> taken(p3) && !barred.contains(p3) && p3 != p4
        && child(before, p4, p4_index_of(page)).is_none()
    &&& child(with_p3, p3, p3_index_of(page)) != Some(p2) ==> taken(p2) && !barred.contains(p2) && p2 != p4
        && p2 != p3 && child(with_p3, p3, p3_index_of(page)).is_none()
    &&& child(with_p2, p2, p2_index_of(page)) != Some(p1) ==> taken(p1) && !barred.contains(p1) && p1 != p4
        && p1 != p3 && p1 != p2 && child(with_p2, p2, p2_index_of(page)).is_none()
    &&& with_p1[(p1, p1_index_of(page))] == 0
}

/// The tables on the way to the entry of the page with index `page`, from
/// the top table in frame `p4` down: those of level 3, 2 and 1.
pub open spec fn path_tables(words: Words, p4: u64, page: u64) -> (u64, u64, u64) {
    let p3 = child(words, p4, p4_index_of(page)).unwrap();
    let p2 = child(words, p3, p3_index_of(page)).unwrap();
    let p1 = child(words, p2, p2_index_of(page)).unwrap();
    (p3, p2, p1)
}

/// Whether the frame with index `frame` holds the top table, or one of the
/// tables below it on the way to the entry of the page with index `page`, as
/// far as the way is there.
pub open spec fn on_partial_way(words: Words, root: u64, page: u64, frame: u64) -> bool {
    match top_table(words, root) {
        None => false,
        Some(p4) => frame == p4 || match child(words, p4, p4_index_of(page)) {
            None => false,
            Some(p3) => frame == p3 || match child(words, p3, p3_index_of(page)) {
                None => false,
                Some(p2) => frame == p2 || child(words, p2, p2_index_of(page)) == Some(frame),
            },
        },
    }
}

/// Whether the way to the entry of the page with index `page` ends, before
/// it reaches a table of level 1, at an entry that is marked as a huge page.
pub open spec fn huge_on_way(words: Words, root: u64, page: u64) -> bool {
    match top_table(words, root) {
        None => false,
        Some(p4) => match child(words, p4, p4_index_of(page)) {
            None => word_huge(words[(p4, p4_index_of(page))]),
            Some(p3) => match child(words, p3, p3_index_of(page)) {
                None => word_huge(words[(p3, p3_index_of(page))]),
                Some(p2) => child(words, p2, p2_index_of(page)).is_none() && word_huge(
                    words[(p2, p2_index_of(page))],
                ),
            },
        },
    }
}

/// Whether the allocator `asked`, asked for the frame of a table that is
/// missing on the way to the entry of the page with index `page`, gave the
/// answer `got`, which was refused with `error`.  Since the allocator was
/// `before`, when the mapping began, at most two frames have left it; and
/// the frames that the new table must not lie in are those of `barred`, of
/// the tables on the way as far as it was there, and those that have left
/// the allocator since.
pub open spec fn starved<A: FrameAllocator>(
    before: A,
    asked: A,
    got: Option<Frame>,
    lineage: Set<u64>,
    barred: Set<u64>,
    words: Words,
    root: u64,
    page: u64,
    error: PagingError,
) -> bool {
    &&& refusal(got, lineage) == Some(error)
    &&& forall|g: u64| #[trigger] asked.available(g) ==> before.available(g)
    &&& forall|x: u64, y: u64, z: u64|
        #![trigger asked.available(x), asked.available(y), asked.available(z)]
        before.available(x) && !asked.available(x) && before.available(y) && !asked.available(y)
            && before.available(z) && !asked.available(z) ==> x == y || x == z || y == z
    &&& forall|g: u64| #[trigger]
        lineage.contains(g) ==> barred.contains(g) || on_partial_way(words, root, page, g) || (
        before.available(g) && !asked.available(g))
}

/// Whether the tables on the way to the entry of the page with index `page`
/// are there, and the table of level 1 is none of the tables above it, nor
/// the root table: a write to the entry of the page then leaves the way to
/// it as it is.
pub open spec fn plain_way(words: Words, root: u64, page: u64) -> bool {
    match (top_table(words, root), leaf_table(words, root, page)) {
        (Some(p4), Some(p1)) => {
            let tables = path_tables(words, p4, page);
            p1 != root && p1 != p4 && p1 != tables.0 && p1 != tables.1
        },
        _ => false,
    }
}

/// Whether the step from the machine `before` to the machine `after`, which
/// wrote to the way to the page with index `page` and to its entry, kept the
/// address space in shape: where it was a tree, it is a tree again, with
/// the tables on the way to the page among its tables, and every other page
/// has the entry that it had.
pub open spec fn keeps_tree<A: FrameAllocator>(
    before: Mapper,
    allocator_before: A,
    after: Mapper,
    allocator_after: A,
    page: u64,
) -> bool {
    forall|places: Places| #[trigger]
        tree_space(before, allocator_before, places) ==> {
            let top = top_table(before.words(), before.root()).unwrap();
            &&& top_table(after.words(), after.root()) == Some(top)
            &&& leaf_table_from(after.words(), top, page).is_some()
            &&& tree_space(
                after,
                allocator_after,
                grown_places(places, page, path_tables(after.words(), top, page)),
            )
            &&& forall|other: u64, entry: u64|
                is_page_number(other) && p4_index_of(other) != 511 && other != page && #[trigger] settled(
                    before.words(),
                    top,
                    other,
                    entry,
                ) ==> settled(after.words(), top, other, entry)
            &&& forall|other: u64, entry: u64|
                is_page_number(other) && p4_index_of(other) != 511 && other != page
                    && word_present(entry) && #[trigger] settled(
                    after.words(),
                    top,
                    other,
                    entry,
                ) ==> settled(before.words(), top, other, entry)
            &&& forall|k: (u64, int)|
                0 <= k.1 < 512 && #[trigger] after.words()[k] != before.words()[k] ==> grown_places(
                    places,
                    page,
                    path_tables(after.words(), top, page),
                ).contains_key(k.0)
        }
}

/// Whether the step from the machine `before` to the machine `after`, which
/// emptied the entry of the page with index `page`, kept the address space
/// in shape: where it was a tree, it is the same tree, and every other page
/// has the entry that it had.  `freed` is the frame that the allocator got
/// back, where it got one back.
pub open spec fn keeps_tree_without<A: FrameAllocator>(
    before: Mapper,
    allocator_before: A,
    after: Mapper,
    allocator_after: A,
    page: u64,
    freed: Option<u64>,
) -> bool {
    forall|places: Places| #[trigger]
        tree_space(before, allocator_before, places) && (freed matches Some(f)
            ==> !places.contains_key(f)) ==> {
            let top = top_table(before.words(), before.root()).unwrap();
            &&& tree_space(after, allocator_after, places)
            &&& settled(after.words(), top, page, 0)
            &&& forall|other: u64, entry: u64|
                is_page_number(other) && p4_index_of(other) != 511 && other != page ==> (
                #[trigger] settled(before.words(), top, other, entry) <==> settled(
                    after.words(),
                    top,
                    other,
                    entry,
                ))
        }
}

/// Whatever differs between `before` and `after` was no present entry in
/// `before`, or lies in a frame that `taken` says was taken from the
/// allocator.
pub open spec fn only_absent_or_taken(before: Words, after: Words, taken: spec_fn(u64) -> bool)
    -> bool {
    forall|k: (u64, int)|
        0 <= k.1 < 512 && #[trigger] after[k] != before[k] ==> !word_present(before[k]) || taken(
            k.0,
        )
}

/// The frames that `after` no longer has available and `before` had.
pub open spec fn taken_between<A: FrameAllocator>(before: A, after: A) -> spec_fn(u64) -> bool {
    |g: u64| before.available(g) && !after.available(g)
}

impl Mapper {
    /// Mapping a page in a tree gives a tree.
    #[verifier::rlimit(30)]
    proof fn lemma_mapped_keeps_tree<A: FrameAllocator>(
        &self,
        before: Mapper,
        allocator_before: A,
        allocator_after: A,
        page: Page,
        leaf: u64,
    )
        requires
            is_page_number(page.index()),
            p4_index_of(page.index()) != 511,
            self.root() == before.root(),
            self.pinned() == before.pinned(),
            forall|k: (u64, int)| before.words().contains_key(k) <==> 0 <= k.1 < 512,
            self.words()[(before.root(), 511)] == before.words()[(before.root(), 511)],
            forall|g: u64| #[trigger] allocator_after.available(g) ==> allocator_before.available(g),
            top_table(before.words(), before.root()) matches Some(p4) && maps_page(
                before.words(),
                self.words(),
                before.pinned().insert(before.root()),
                p4,
                page.index(),
                leaf,
                path_tables(self.words(), p4, page.index()),
                taken_between(allocator_before, allocator_after),
            ),
        ensures
            keeps_tree(before, allocator_before, *self, allocator_after, page.index()),
    {
        let top = top_table(before.words(), before.root()).unwrap();
        let tables = path_tables(self.words(), top, page.index());
        let barred = before.pinned().insert(before.root());
        let taken = taken_between(allocator_before, allocator_after);
        assert forall|places: Places| #[trigger]
            tree_space(before, allocator_before, places) implies {
            &&& top_table(self.words(), self.root()) == Some(top)
            &&& leaf_table_from(self.words(), top, page.index()).is_some()
            &&& tree_space(*self, allocator_after, grown_places(places, page.index(), tables))
            &&& forall|other: u64, entry: u64|
                is_page_number(other) && p4_index_of(other) != 511 && other != page.index()
                    && #[trigger] settled(before.words(), top, other, entry) ==> settled(
                    self.words(),
                    top,
                    other,
                    entry,
                )
            &&& forall|other: u64, entry: u64|
                is_page_number(other) && p4_index_of(other) != 511 && other != page.index()
                    && word_present(entry) && #[trigger] settled(
                    self.words(),
                    top,
                    other,
                    entry,
                ) ==> settled(before.words(), top, other, entry)
            &&& forall|k: (u64, int)|
                0 <= k.1 < 512 && #[trigger] self.words()[k] != before.words()[k] ==> grown_places(
                    places,
                    page.index(),
                    tables,
                ).contains_key(k.0)
        } by {
            lemma_map_keeps_tree(
                before.words(),
                self.words(),
                barred,
                top,
                places,
                page.index(),
                leaf,
                tables,
                taken,
            );
            let grown = grown_places(places, page.index(), tables);
            assert(settled(self.words(), top, page.index(), leaf));
            assert forall|t: u64| #[trigger] grown.contains_key(t) implies !allocator_after.available(
                t,
            ) && !self.pinned().contains(t) && (t != self.root() || top == self.root()) by {
                if places.contains_key(t) {
                    assert(!allocator_before.available(t));
                    if allocator_after.available(t) {
                        assert(allocator_before.available(t));
                    }
                } else {
                    assert(grown_places(places, page.index(), tables).contains_key(t));
                    assert(taken(t) && !barred.contains(t));
                    assert(barred.contains(before.root()));
                }
            }
        }
    }

    /// Maps `page` to `frame` with `flags`, and marks the entry present.
    /// Tables that are missing on the way to the entry are made from frames
    /// of `allocator`.  An entry that is in use is never overwritten.
    #[verifier::rlimit(30)]
    pub fn map_to<A: FrameAllocator>(
        &mut self,
        page: Page,
        frame: Frame,
        flags: EntryFlags,
        allocator: &mut A,
    ) -> (result: Result<(), PagingError>)
        ensures
            final(self).root() == old(self).root(),
            final(self).pinned() == old(self).pinned(),
            final(self).pending() == old(self).pending(),
            final(self).words()[(old(self).root(), 511)] == old(self).words()[(
                old(self).root(),
                511,
            )],
            frame.number >= FRAME_LIMIT ==> result == Err::<(), PagingError>(
                PagingError::InvalidFrame,
            ),
            frame.number < FRAME_LIMIT && top_table(old(self).words(), old(self).root()).is_none()
                ==> result == Err::<(), PagingError>(PagingError::NoRecursiveMapping),
            result == Err::<(), PagingError>(PagingError::NoRecursiveMapping) ==> top_table(
                old(self).words(),
                old(self).root(),
            ).is_none(),
            result == Err::<(), PagingError>(PagingError::HugePage) <==> frame.number
                < FRAME_LIMIT && huge_on_way(old(self).words(), old(self).root(), page.index()),
            result == Err::<(), PagingError>(PagingError::HugePage) ==> final(self).words() == old(self).words() && *final(allocator) == *old(allocator),
            result == Err::<(), PagingError>(PagingError::PageAlreadyMapped) ==> leaf_entry(
                old(self).words(),
                old(self).root(),
                page.index(),
            ).is_some() && leaf_entry(old(self).words(), old(self).root(), page.index()) != Some(
                0u64,
            ),
            frame.number < FRAME_LIMIT && (result == Err::<(), PagingError>(
                PagingError::OutOfFrames,
            ) || result == Err::<(), PagingError>(PagingError::InvalidFrame) || result == Err::<
                (),
                PagingError,
            >(PagingError::TableInUse)) ==> exists|a: &mut A, got: Option<Frame>, lineage: Set<u64>|
                call_ensures(A::allocate_frame, (a,), got) && *final(a) == *final(allocator)
                    && #[trigger] starved(
                    *old(allocator),
                    *a,
                    got,
                    lineage,
                    old(self).pinned().insert(old(self).root()),
                    old(self).words(),
                    old(self).root(),
                    page.index(),
                    result->Err_0,
                ),
            frame.number < FRAME_LIMIT ==> (leaf_table(
                old(self).words(),
                old(self).root(),
                page.index(),
            ) matches Some(p1) ==> {
                &&& *final(allocator) == *old(allocator)
                &&& old(self).words()[(p1, p1_index_of(page.index()))] != 0 ==> result == Err::<
                    (),
                    PagingError,
                >(PagingError::PageAlreadyMapped)
                &&& old(self).words()[(p1, p1_index_of(page.index()))] == 0 ==> result.is_ok()
                    && final(self).words() == old(self).words().insert(
                    (p1, p1_index_of(page.index())),
                    encode(frame.number, flags.value() | PRESENT),
                )
            }),
            result matches Err(e) ==> e == PagingError::InvalidFrame || e
                == PagingError::NoRecursiveMapping || e == PagingError::HugePage || e
                == PagingError::OutOfFrames || e == PagingError::TableInUse || e
                == PagingError::PageAlreadyMapped,
            result matches Err(e) ==> (frame.number >= FRAME_LIMIT || e
                == PagingError::NoRecursiveMapping || e == PagingError::PageAlreadyMapped
                ==> final(self).words() == old(self).words() && *final(allocator) == *old(allocator)),
            result.is_ok() ==> {
                &&& translation(final(self).words(), final(self).root(), page.index()) == Ok::<
                    Option<Frame>,
                    PagingError,
                >(Some(frame))
                &&& leaf_table(final(self).words(), final(self).root(), page.index()) matches Some(
                    p1,
                ) && final(self).words()[(p1, p1_index_of(page.index()))] == encode(
                    frame.number,
                    flags.value() | PRESENT,
                )
                &&& top_table(old(self).words(), old(self).root()) matches Some(p4) && maps_page(
                    old(self).words(),
                    final(self).words(),
                    old(self).pinned().insert(old(self).root()),
                    p4,
                    page.index(),
                    encode(frame.number, flags.value() | PRESENT),
                    path_tables(final(self).words(), p4, page.index()),
                    taken_between(*old(allocator), *final(allocator)),
                )
            },
            only_absent_or_taken(
                old(self).words(),
                final(self).words(),
                taken_between(*old(allocator), *final(allocator)),
            ),
            forall|g: u64|
                #[trigger] final(allocator).available(g) ==> old(allocator).available(g),
            result.is_ok() && p4_index_of(page.index()) != 511 ==> keeps_tree(
                *old(self),
                *old(allocator),
                *final(self),
                *final(allocator),
                page.index(),
            ),
    {
        proof {
            self.memory.lemma_total();
            lemma_word_frame_bound(0);
        }
        let index = page.number();
        let ghost m0 = self.words();
        let ghost a0 = *allocator;
        if frame.number >= FRAME_LIMIT {
            return Err(PagingError::InvalidFrame);
        }
        let p4 = match self.p4() {
            Some(table) => table,
            None => {
                return Err(PagingError::NoRecursiveMapping);
            },
        };
        let p3 = match p4.next_table_create(&mut self.memory, page.p4_index(), allocator) {
            Ok(table) => table,
            Err(e) => {
                proof {
                    if e != PagingError::HugePage {
                        let (a, got) = choose|a: &mut A, got: Option<Frame>|
                            *a == a0 && *final(a) == *allocator && call_ensures(
                                A::allocate_frame,
                                (a,),
                                got,
                            ) && refusal(got, p4.lineage()) == Some(e);
                        assert(starved(
                            a0,
                            *a,
                            got,
                            p4.lineage(),
                            old(self).pinned().insert(old(self).root()),
                            m0,
                            old(self).root(),
                            page.index(),
                            e,
                        ));
                    }
                }
                return Err(e);
            },
        };
        let ghost m1 = self.words();
        let ghost a1 = *allocator;
        assert(top_table(m1, self.root()) == Some(p4.frame_number()));
        assert(only_absent_or_taken(m0, m1, taken_between(a0, a1)));
        let p2 = match p3.next_table_create(&mut self.memory, page.p3_index(), allocator) {
            Ok(table) => table,
            Err(e) => {
                proof {
                    if e != PagingError::HugePage {
                        let (a, got) = choose|a: &mut A, got: Option<Frame>|
                            *a == a1 && *final(a) == *allocator && call_ensures(
                                A::allocate_frame,
                                (a,),
                                got,
                            ) && refusal(got, p3.lineage()) == Some(e);
                        assert(starved(
                            a0,
                            *a,
                            got,
                            p3.lineage(),
                            old(self).pinned().insert(old(self).root()),
                            m0,
                            old(self).root(),
                            page.index(),
                            e,
                        ));
                    }
                }
                return Err(e);
            },
        };
        let ghost m2 = self.words();
        let ghost a2 = *allocator;
        assert(top_table(m2, self.root()) == Some(p4.frame_number()));
        assert(child(m2, p4.frame_number(), p4_index_of(page.index())) == Some(p3.frame_number()));
        assert(only_absent_or_taken(m0, m2, taken_between(a0, a2)));
        let p1 = match p2.next_table_create(&mut self.memory, page.p2_index(), allocator) {
            Ok(table) => table,
            Err(e) => {
                proof {
                    if e != PagingError::HugePage {
                        let (a, got) = choose|a: &mut A, got: Option<Frame>|
                            *a == a2 && *final(a) == *allocator && call_ensures(
                                A::allocate_frame,
                                (a,),
                                got,
                            ) && refusal(got, p2.lineage()) == Some(e);
                        assert(starved(
                            a0,
                            *a,
                            got,
                            p2.lineage(),
                            old(self).pinned().insert(old(self).root()),
                            m0,
                            old(self).root(),
                            page.index(),
                            e,
                        ));
                    }
                }
                return Err(e);
            },
        };
        let ghost m3 = self.words();
        let ghost a3 = *allocator;
        assert(top_table(m3, self.root()) == Some(p4.frame_number()));
        assert(child(m3, p4.frame_number(), p4_index_of(page.index())) == Some(p3.frame_number()));
        assert(child(m3, p3.frame_number(), p3_index_of(page.index())) == Some(p2.frame_number()));
        assert(only_absent_or_taken(m0, m3, taken_between(a0, a3)));
        assert(leaf_table(m0, self.root(), page.index()).is_some() ==> m3 == m0 && a3 == a0);
        if !p1.entry(&self.memory, page.p1_index()).is_unused() {
            return Err(PagingError::PageAlreadyMapped);
        }
        let number = frame.number;
        let bits = flags.union(EntryFlags::from_bits_truncate(PRESENT));
        let raw = bits.bits();
        let mut entry = Entry(0);
        entry.set(frame, bits);
        proof {
            lemma_flag_bits(flags.value(), PRESENT);
            lemma_flag_bits(raw, PRESENT);
            lemma_encode_decode(number, raw);
        }
        p1.set_entry(&mut self.memory, page.p1_index(), entry);
        let ghost m4 = self.words();
        assert(top_table(m4, self.root()) == Some(p4.frame_number()));
        assert(child(m4, p4.frame_number(), p4_index_of(page.index())) == Some(p3.frame_number()));
        assert(child(m4, p3.frame_number(), p3_index_of(page.index())) == Some(p2.frame_number()));
        assert(child(m4, p2.frame_number(), p2_index_of(page.index())) == Some(p1.frame_number()));
        assert(m1 == hang(m0, p4.frame_number(), p4_index_of(page.index()), p3.frame_number()));
        assert(m2 == hang(m1, p3.frame_number(), p3_index_of(page.index()), p2.frame_number()));
        assert(m3 == hang(m2, p2.frame_number(), p2_index_of(page.index()), p1.frame_number()));
        proof {
            if p4_index_of(page.index()) != 511 {
                self.lemma_mapped_keeps_tree(
                    *old(self),
                    *old(allocator),
                    *allocator,
                    page,
                    encode(number, flags.value() | PRESENT),
                );
            }
        }
        Ok(())
    }

    /// Maps `page` to a frame taken from `allocator`.
    #[verifier::rlimit(30)]
    pub fn map<A: FrameAllocator>(&mut self, page: Page, flags: EntryFlags, allocator: &mut A) -> (result:
        Result<(), PagingError>)
        ensures
            final(self).root() == old(self).root(),
            final(self).pinned() == old(self).pinned(),
            final(self).pending() == old(self).pending(),
            final(self).words()[(old(self).root(), 511)] == old(self).words()[(
                old(self).root(),
                511,
            )],
            result matches Err(e) ==> e == PagingError::InvalidFrame || e
                == PagingError::NoRecursiveMapping || e == PagingError::HugePage || e
                == PagingError::OutOfFrames || e == PagingError::TableInUse || e
                == PagingError::PageAlreadyMapped,
            result.is_ok() ==> {
                &&& translation(
                    final(self).words(),
                    final(self).root(),
                    page.index(),
                ) matches Ok(Some(frame)) && taken_between(*old(allocator), *final(allocator))(
                    frame.number,
                )
                &&& leaf_table(final(self).words(), final(self).root(), page.index()) matches Some(
                    p1,
                ) && word_flags(final(self).words()[(p1, p1_index_of(page.index()))])
                    == flags.value() | PRESENT && word_present(
                    final(self).words()[(p1, p1_index_of(page.index()))],
                )
            },
            result.is_ok() ==> (leaf_table(
                old(self).words(),
                old(self).root(),
                page.index(),
            ) matches Some(p1) ==> old(self).words()[(p1, p1_index_of(page.index()))] == 0),
            (forall|g: u64| !old(allocator).available(g)) ==> result == Err::<(), PagingError>(
                PagingError::OutOfFrames,
            ) && final(self).words() == old(self).words(),
            result.is_ok() ==> exists|between: A| #[trigger]
                hands_out(
                    *old(allocator),
                    translation(final(self).words(), final(self).root(), page.index()).unwrap().unwrap(),
                    between,
                ) && forall|g: u64| #[trigger]
                    final(allocator).available(g) ==> between.available(g),
            result.is_ok() && p4_index_of(page.index()) != 511 ==> exists|between: A|
                {
                    &&& #[trigger] keeps_tree(
                        *old(self),
                        between,
                        *final(self),
                        *final(allocator),
                        page.index(),
                    )
                    &&& forall|g: u64|
                        #[trigger] between.available(g) ==> old(allocator).available(g)
                    &&& forall|g: u64| !old(allocator).available(g) ==> !between.available(g)
                },
            only_absent_or_taken(
                old(self).words(),
                final(self).words(),
                taken_between(*old(allocator), *final(allocator)),
            ),
            forall|g: u64|
                #[trigger] final(allocator).available(g) ==> old(allocator).available(g),
    {
        proof {
            self.memory.lemma_total();
        }
        match allocator.allocate_frame() {
            None => Err(PagingError::OutOfFrames),
            Some(frame) => {
                let ghost number = frame.number;
                let ghost between = *allocator;
                let raw = flags.bits();
                let result = self.map_to(page, frame, flags, allocator);
                proof {
                    if result.is_ok() {
                        lemma_flag_bits(raw, PRESENT);
                        lemma_encode_decode(number, raw | PRESENT);
                        assert(hands_out(*old(allocator), Frame { number }, between));
                    }
                }
                result
            },
        }
    }

    /// Maps the page whose index is that of `frame` to `frame`: the address
    /// of every byte of the frame is then its own translation.
    #[verifier::rlimit(30)]
    pub fn identity_map<A: FrameAllocator>(
        &mut self,
        frame: Frame,
        flags: EntryFlags,
        allocator: &mut A,
    ) -> (result: Result<(), PagingError>)
        ensures
            final(self).root() == old(self).root(),
            final(self).pinned() == old(self).pinned(),
            final(self).pending() == old(self).pending(),
            final(self).words()[(old(self).root(), 511)] == old(self).words()[(
                old(self).root(),
                511,
            )],
            frame.number >= FRAME_LIMIT ==> result == Err::<(), PagingError>(
                PagingError::InvalidFrame,
            ),
            frame.number < FRAME_LIMIT && !is_page_number(frame.number) ==> result == Err::<
                (),
                PagingError,
            >(PagingError::NonCanonicalAddress),
            frame.number < FRAME_LIMIT && is_page_number(frame.number) && top_table(
                old(self).words(),
                old(self).root(),
            ).is_none() ==> result == Err::<(), PagingError>(PagingError::NoRecursiveMapping),
            frame.number < FRAME_LIMIT && is_page_number(frame.number) ==> (leaf_table(
                old(self).words(),
                old(self).root(),
                frame.number,
            ) matches Some(p1) ==> {
                &&& *final(allocator) == *old(allocator)
                &&& old(self).words()[(p1, p1_index_of(frame.number))] != 0 ==> result == Err::<
                    (),
                    PagingError,
                >(PagingError::PageAlreadyMapped)
                &&& old(self).words()[(p1, p1_index_of(frame.number))] == 0 ==> result.is_ok()
                    && final(self).words() == old(self).words().insert(
                    (p1, p1_index_of(frame.number)),
                    encode(frame.number, flags.value() | PRESENT),
                )
            }),
            result matches Err(e) ==> e == PagingError::InvalidFrame || e
                == PagingError::NonCanonicalAddress || e == PagingError::NoRecursiveMapping || e
                == PagingError::HugePage || e == PagingError::OutOfFrames || e
                == PagingError::TableInUse || e == PagingError::PageAlreadyMapped,
            result matches Err(e) ==> (frame.number >= FRAME_LIMIT || e
                == PagingError::NonCanonicalAddress || e == PagingError::NoRecursiveMapping || e
                == PagingError::PageAlreadyMapped ==> final(self).words() == old(self).words()
                && *final(allocator) == *old(allocator)),
            result.is_ok() ==> {
                &&& translation(final(self).words(), final(self).root(), frame.number) == Ok::<
                    Option<Frame>,
                    PagingError,
                >(Some(frame))
                &&& is_page_number(frame.number)
                &&& top_table(old(self).words(), old(self).root()) matches Some(p4) && maps_page(
                    old(self).words(),
                    final(self).words(),
                    old(self).pinned().insert(old(self).root()),
                    p4,
                    frame.number,
                    encode(frame.number, flags.value() | PRESENT),
                    path_tables(final(self).words(), p4, frame.number),
                    taken_between(*old(allocator), *final(allocator)),
                )
                &&& keeps_tree(
                    *old(self),
                    *old(allocator),
                    *final(self),
                    *final(allocator),
                    frame.number,
                )
            },
            only_absent_or_taken(
                old(self).words(),
                final(self).words(),
                taken_between(*old(allocator), *final(allocator)),
            ),
            forall|g: u64|
                #[trigger] final(allocator).available(g) ==> old(allocator).available(g),
    {
        proof {
            self.memory.lemma_total();
        }
        if frame.number >= FRAME_LIMIT {
            return Err(PagingError::InvalidFrame);
        }
        match Page::containing_address(frame.start_address()) {
            None => Err(PagingError::NonCanonicalAddress),
            Some(page) => self.map_to(page, frame, flags, allocator),
        }
    }

    /// Takes the mapping of `page` away and notes that the translation of
    /// the page is to be dropped from the translation cache.  Gives the
    /// frame that was behind the page.  Refused where the page is not mapped,
    /// where a huge page maps it, and where its entry is the recursive slot
    /// of the root table in force.  Tables that are left empty stay.
    #[verifier::rlimit(30)]
    pub fn unmap_page(&mut self, page: Page) -> (result: Result<Frame, PagingError>)
        ensures
            result == unmap_outcome(old(self).words(), old(self).root(), page.index()),
            final(self).root() == old(self).root(),
            final(self).pinned() == old(self).pinned(),
            final(self).words()[(old(self).root(), 511)] == old(self).words()[(
                old(self).root(),
                511,
            )],
            result.is_err() ==> final(self).words() == old(self).words() && final(self).pending()
                == old(self).pending(),
            result.is_ok() ==> {
                &&& leaf_table(old(self).words(), old(self).root(), page.index()) matches Some(
                    p1,
                ) && final(self).words() == old(self).words().insert(
                    (p1, p1_index_of(page.index())),
                    0,
                )
                &&& final(self).pending() == old(self).pending().push(
                    TlbFlush::Page((page.index() * PAGE_SIZE) as u64),
                )
                &&& translation(final(self).words(), final(self).root(), page.index()) == Ok::<
                    Option<Frame>,
                    PagingError,
                >(None)
            },
    {
        proof {
            self.memory.lemma_total();
            lemma_word_frame_bound(0);
        }
        match self.translate_page(page) {
            Err(e) => {
                return Err(e);
            },
            Ok(None) => {
                return Err(PagingError::PageNotMapped);
            },
            Ok(Some(_)) => {},
        }
        let p4 = match self.p4() {
            Some(table) => table,
            None => {
                return Err(PagingError::NoRecursiveMapping);
            },
        };
        let p3 = match p4.next_table(&self.memory, page.p4_index()) {
            Some(table) => table,
            None => {
                return Err(PagingError::HugePage);
            },
        };
        let p2 = match p3.next_table(&self.memory, page.p3_index()) {
            Some(table) => table,
            None => {
                return Err(PagingError::HugePage);
            },
        };
        let p1 = match p2.next_table(&self.memory, page.p2_index()) {
            Some(table) => table,
            None => {
                return Err(PagingError::HugePage);
            },
        };
        if p1.frame().number == self.root.number && page.p1_index() == RECURSIVE_INDEX {
            return Err(PagingError::RecursiveSlot);
        }
        let mut entry = p1.entry(&self.memory, page.p1_index());
        let frame = match entry.frame() {
            Some(frame) => frame,
            None => {
                return Err(PagingError::PageNotMapped);
            },
        };
        entry.set_unused();
        p1.set_entry(&mut self.memory, page.p1_index(), entry);
        self.flush(TlbFlush::Page(page.start_address()));
        Ok(frame)
    }

    /// Takes the mapping of `page` away, as `unmap_page` does, and gives the
    /// frame that was behind the page back to `allocator`.
    #[verifier::rlimit(30)]
    pub fn unmap<A: FrameAllocator>(&mut self, page: Page, allocator: &mut A) -> (result: Result<
        (),
        PagingError,
    >)
        ensures
            result.is_ok() <==> unmap_outcome(
                old(self).words(),
                old(self).root(),
                page.index(),
            ).is_ok(),
            result matches Err(e) ==> unmap_outcome(
                old(self).words(),
                old(self).root(),
                page.index(),
            ) == Err::<Frame, PagingError>(e),
            final(self).root() == old(self).root(),
            final(self).pinned() == old(self).pinned(),
            final(self).words()[(old(self).root(), 511)] == old(self).words()[(
                old(self).root(),
                511,
            )],
            result.is_err() ==> final(self).words() == old(self).words() && final(self).pending()
                == old(self).pending() && *final(allocator) == *old(allocator),
            result.is_ok() ==> {
                &&& leaf_table(old(self).words(), old(self).root(), page.index()) matches Some(
                    p1,
                ) && final(self).words() == old(self).words().insert(
                    (p1, p1_index_of(page.index())),
                    0,
                )
                &&& final(self).pending() == old(self).pending().push(
                    TlbFlush::Page((page.index() * PAGE_SIZE) as u64),
                )
                &&& translation(final(self).words(), final(self).root(), page.index()) == Ok::<
                    Option<Frame>,
                    PagingError,
                >(None)
                &&& unmap_outcome(
                    old(self).words(),
                    old(self).root(),
                    page.index(),
                ) matches Ok(frame) && forall|g: u64|
                    g != frame.number ==> #[trigger] final(allocator).available(g) == old(allocator).available(g)
            },
            result.is_ok() ==> exists|a: &mut A|
                *a == *old(allocator) && *final(a) == *final(allocator) && call_ensures(
                    A::deallocate_frame,
                    (a, unmap_outcome(old(self).words(), old(self).root(), page.index()).unwrap()),
                    (),
                ),
            result.is_ok() && p4_index_of(page.index()) != 511 ==> keeps_tree_without(
                *old(self),
                *old(allocator),
                *final(self),
                *final(allocator),
                page.index(),
                Some(
                    unmap_outcome(old(self).words(), old(self).root(), page.index()).unwrap().number,
                ),
            ),
    {
        let index = page.number();
        proof {
            self.memory.lemma_total();
        }
        match self.unmap_page(page) {
            Ok(frame) => {
                let ghost number = frame.number;
                allocator.deallocate_frame(frame);
                proof {
                    if p4_index_of(index) != 511 {
                        let before = old(self).words();
                        let top = top_table(before, old(self).root()).unwrap();
                        assert forall|places: Places| #[trigger]
                            tree_space(*old(self), *old(allocator), places) && !places.contains_key(
                                number,
                            ) implies {
                            &&& tree_space(*self, *allocator, places)
                            &&& settled(self.words(), top, index, 0)
                            &&& forall|other: u64, entry: u64|
                                is_page_number(other) && p4_index_of(other) != 511 && other
                                    != index ==> (#[trigger] settled(before, top, other, entry)
                                    <==> settled(self.words(), top, other, entry))
                        } by {
                            lemma_leaf_write_keeps_tree(before, top, places, index, 0);
                            lemma_leaf_place(before, top, places, index);
                            assert forall|t: u64| #[trigger] places.contains_key(t) implies !allocator.available(
                                t,
                            ) by {
                                assert(!old(allocator).available(t));
                            }
                        }
                    }
                }
                Ok(())
            },
            Err(e) => Err(e),
        }
    }
}

/// Whether the page with index `page` has a present entry with the flag
/// bits `bits` in the address space that the recursive slot of the root
/// table in frame `root` names.
pub open spec fn flagged(words: Words, root: u64, page: u64, bits: u64) -> bool {
    leaf_table(words, root, page) matches Some(p1) && word_present(
        words[(p1, p1_index_of(page))],
    ) && word_flags(words[(p1, p1_index_of(page))]) == bits
}

/// Whether the pages with the indices `pages` are mapped with the flag bits
/// `bits` in `after`, in a tree, and every other page has the entry that it
/// had in `before`: what mapping the pages one by one in a tree comes to.
pub open spec fn maps_range<A: FrameAllocator>(
    before: Mapper,
    after: Mapper,
    allocator_after: A,
    pages: Seq<int>,
    bits: u64,
) -> bool {
    let top = top_table(before.words(), before.root()).unwrap();
    &&& is_tree(after, allocator_after)
    &&& top_table(after.words(), after.root()) == Some(top)
    &&& forall|i: int|
        0 <= i < pages.len() ==> flagged(
            after.words(),
            after.root(),
            #[trigger] pages[i] as u64,
            bits,
        )
    &&& forall|other: u64, entry: u64|
        is_page_number(other) && p4_index_of(other) != 511 && !pages.contains(other as int)
            && #[trigger] settled(before.words(), top, other, entry) ==> settled(
            after.words(),
            top,
            other,
            entry,
        )
    &&& forall|i: int, entry: u64|
        0 <= i < pages.len() && #[trigger] settled(
            before.words(),
            top,
            #[trigger] pages[i] as u64,
            entry,
        ) ==> entry == 0
    &&& forall|i: int, j: int| 0 <= i < j < pages.len() ==> pages[i] != pages[j]
}

impl Mapper {
    /// Maps each page of `pages` to a frame taken from `allocator`, with
    /// `flags` and present.  In an address space that is a tree, and for
    /// pages outside the part of the address space that the recursive slot
    /// spans, every page of `pages` is mapped afterwards, and no other page
    /// has lost its entry.
    #[verifier::loop_isolation(false)]
    #[verifier::rlimit(30)]
    pub fn map_range<A: FrameAllocator>(
        &mut self,
        pages: PageIter,
        flags: EntryFlags,
        allocator: &mut A,
    ) -> (result: Result<(), PagingError>)
        ensures
            final(self).root() == old(self).root(),
            final(self).pending() == old(self).pending(),
            final(self).pinned() == old(self).pinned(),
            forall|g: u64|
                #[trigger] final(allocator).available(g) ==> old(allocator).available(g),
            pages.remaining().len() == 0 ==> result.is_ok() && final(self).words() == old(self).words(),
            result matches Err(e) ==> e == PagingError::InvalidFrame || e
                == PagingError::NoRecursiveMapping || e == PagingError::HugePage || e
                == PagingError::OutOfFrames || e == PagingError::TableInUse || e
                == PagingError::PageAlreadyMapped,
            result.is_ok() && is_tree(*old(self), *old(allocator)) && (forall|i: int|
                0 <= i < pages.remaining().len() ==> p4_index_of(
                    #[trigger] pages.remaining()[i] as u64,
                ) != 511) ==> maps_range(
                *old(self),
                *final(self),
                *final(allocator),
                pages.remaining(),
                flags.value() | PRESENT,
            ),
    {
        let ghost all = pages.remaining();
        let ghost top = top_table(self.words(), self.root()).unwrap();
        let ghost sound = is_tree(*self, *allocator) && (forall|i: int|
            0 <= i < all.len() ==> p4_index_of(#[trigger] all[i] as u64) != 511);
        let mut pages = pages;
        let ghost mut count: int = 0;
        loop
            invariant
                self.root() == old(self).root(),
                self.pending() == old(self).pending(),
                self.pinned() == old(self).pinned(),
                forall|g: u64| #[trigger] allocator.available(g) ==> old(allocator).available(g),
                0 <= count <= all.len(),
                pages.remaining() == all.skip(count),
                count == 0 ==> self.words() == old(self).words(),
                sound ==> maps_range(*old(self), *self, *allocator, all.take(count), flags.value()
                    | PRESENT),
            decreases pages.remaining().len(),
        {
            let ghost before = *self;
            let ghost before_allocator = *allocator;
            match pages.next() {
                Some(page) => {
                    let number = page.number();
                    assert(number == all[count]);
                    match self.map(page, flags, allocator) {
                        Ok(()) => {},
                        Err(e) => {
                            return Err(e);
                        },
                    }
                    proof {
                        if sound {
                            let between = choose|between: A|
                                {
                                    &&& #[trigger] keeps_tree(
                                        before,
                                        between,
                                        *self,
                                        *allocator,
                                        number,
                                    )
                                    &&& forall|g: u64|
                                        #[trigger] between.available(g)
                                            ==> before_allocator.available(g)
                                    &&& forall|g: u64|
                                        !before_allocator.available(g) ==> !between.available(g)
                                };
                            let places = choose|places: Places| #[trigger]
                                tree_space(before, before_allocator, places);
                            assert(tree_space(before, between, places));
                            let grown = grown_places(
                                places,
                                number,
                                path_tables(self.words(), top, number),
                            );
                            assert(tree_space(*self, *allocator, grown));
                            let done = all.take(count);
                            let more = all.take(count + 1);
                            assert(more =~= done.push(all[count]));
                            assert forall|i: int| 0 <= i < more.len() implies flagged(
                                self.words(),
                                self.root(),
                                #[trigger] more[i] as u64,
                                flags.value() | PRESENT,
                            ) by {
                                if i < count {
                                    let q = done[i] as u64;
                                    assert(flagged(
                                        before.words(),
                                        before.root(),
                                        q,
                                        flags.value() | PRESENT,
                                    ));
                                    let p1 = leaf_table(before.words(), before.root(), q).unwrap();
                                    let w = before.words()[(p1, p1_index_of(q))];
                                    assert(settled(before.words(), top, q, w));
                                    if q == number {
                                        lemma_word_frame_bound(0);
                                    } else {
                                        assert(settled(self.words(), top, q, w));
                                    }
                                }
                            }
                            lemma_word_frame_bound(0);
                            if done.contains(number as int) {
                                let k = choose|k: int|
                                    0 <= k < done.len() && done[k] == number as int;
                                assert(flagged(
                                    before.words(),
                                    before.root(),
                                    done[k] as u64,
                                    flags.value() | PRESENT,
                                ));
                                assert(false);
                            }
                            assert forall|i: int, entry: u64|
                                0 <= i < more.len() && #[trigger] settled(
                                    old(self).words(),
                                    top,
                                    #[trigger] more[i] as u64,
                                    entry,
                                ) implies entry == 0 by {
                                if i == count {
                                    assert(settled(before.words(), top, number, entry));
                                } else {
                                    assert(settled(
                                        old(self).words(),
                                        top,
                                        done[i] as u64,
                                        entry,
                                    ));
                                }
                            }
                            assert forall|i: int, j: int| 0 <= i < j < more.len() implies more[i]
                                != more[j] by {
                                if j == count && more[i] == more[j] {
                                    let q = done[i] as u64;
                                    assert(flagged(
                                        before.words(),
                                        before.root(),
                                        q,
                                        flags.value() | PRESENT,
                                    ));
                                    lemma_word_frame_bound(0);
                                }
                            }
                            assert forall|other: u64, entry: u64|
                                is_page_number(other) && p4_index_of(other) != 511
                                    && !more.contains(other as int) && #[trigger] settled(
                                    old(self).words(),
                                    top,
                                    other,
                                    entry,
                                ) implies settled(self.words(), top, other, entry) by {
                                assert(more[count] == number);
                                if done.contains(other as int) {
                                    let k = choose|k: int|
                                        0 <= k < done.len() && done[k] == other as int;
                                    assert(more[k] == other as int);
                                }
                                assert(settled(before.words(), top, other, entry));
                            }
                        }
                        count = count + 1;
                    }
                },
                None => {
                    assert(all.take(count) =~= all);
                    return Ok(());
                },
            }
        }
    }
}

/// Once a page is mapped to a frame, every address of the page translates
/// to the address with the same offset in the frame.
pub proof fn lemma_mapped_page_translates(words: Words, root: u64, page: u64, frame: Frame, offset: u64)
    requires
        is_page_number(page),
        translation(words, root, page) == Ok::<Option<Frame>, PagingError>(Some(frame)),
        offset < PAGE_SIZE,
    ensures
        address_translation(words, root, (page * PAGE_SIZE + offset) as u64) == Ok::<
            Option<PhysicalAddress>,
            PagingError,
        >(Some((frame.number * PAGE_SIZE + offset) as u64)),
{
}

/// Once a page is unmapped, no address of the page translates.
pub proof fn lemma_unmapped_page_translates_nowhere(words: Words, root: u64, page: u64, offset: u64)
    requires
        is_page_number(page),
        translation(words, root, page) == Ok::<Option<Frame>, PagingError>(None),
        offset < PAGE_SIZE,
    ensures
        address_translation(words, root, (page * PAGE_SIZE + offset) as u64) == Ok::<
            Option<PhysicalAddress>,
            PagingError,
        >(None),
{
}

/// How far an address lies into its 2 MiB and into its 1 GiB, from the slots
/// of its page and its offset in the page.
proof fn lemma_window_offsets(address: u64)
    by (bit_vector)
    ensures
        ((address / 0x1000) % 512) * 0x1000 + address % 0x1000 == address % 0x20_0000,
        ((((address / 0x1000) / 0x200) % 512) * 512 + (address / 0x1000) % 512) * 0x1000 + address
            % 0x1000 == address % 0x4000_0000,
{
}

/// A huge-page entry in a table of level 3 whose frame starts on a multiple
/// of 1 GiB maps the whole 1 GiB around an address: the address translates
/// to the byte as far into the frames from the start frame on as the address
/// lies into its 1 GiB.  An entry whose frame starts elsewhere is refused.
#[verifier::rlimit(30)]
pub proof fn lemma_gib_page_translates(words: Words, root: u64, address: u64, start: u64)
    requires
        is_canonical(address),
        top_table(words, root) matches Some(p4) && child(
            words,
            p4,
            p4_index_of(address / PAGE_SIZE),
        ) matches Some(p3) && word_present(words[(p3, p3_index_of(address / PAGE_SIZE))])
            && word_huge(words[(p3, p3_index_of(address / PAGE_SIZE))]) && word_frame(
            words[(p3, p3_index_of(address / PAGE_SIZE))],
        ) == start,
    ensures
        start % FRAMES_PER_GIB == 0 ==> address_translation(words, root, address) == Ok::<
            Option<PhysicalAddress>,
            PagingError,
        >(Some((start * PAGE_SIZE + address % 0x4000_0000) as u64)),
        start % FRAMES_PER_GIB != 0 ==> address_translation(words, root, address) == Err::<
            Option<PhysicalAddress>,
            PagingError,
        >(PagingError::MisalignedHugePage),
{
    let page = address / PAGE_SIZE;
    let p4 = top_table(words, root).unwrap();
    let p3 = child(words, p4, p4_index_of(page)).unwrap();
    lemma_word_frame_bound(words[(p3, p3_index_of(page))]);
    lemma_window_offsets(address);
}

/// A huge-page entry in a table of level 2 whose frame starts on a multiple
/// of 2 MiB maps the whole 2 MiB around an address.  An entry whose frame
/// starts elsewhere is refused.
#[verifier::rlimit(30)]
pub proof fn lemma_2mib_page_translates(words: Words, root: u64, address: u64, start: u64)
    requires
        is_canonical(address),
        top_table(words, root) matches Some(p4) && child(
            words,
            p4,
            p4_index_of(address / PAGE_SIZE),
        ) matches Some(p3) && child(words, p3, p3_index_of(address / PAGE_SIZE)) matches Some(p2)
            && word_present(words[(p2, p2_index_of(address / PAGE_SIZE))]) && word_huge(
            words[(p2, p2_index_of(address / PAGE_SIZE))],
        ) && word_frame(words[(p2, p2_index_of(address / PAGE_SIZE))]) == start,
    ensures
        start % FRAMES_PER_2MIB == 0 ==> address_translation(words, root, address) == Ok::<
            Option<PhysicalAddress>,
            PagingError,
        >(Some((start * PAGE_SIZE + address % 0x20_0000) as u64)),
        start % FRAMES_PER_2MIB != 0 ==> address_translation(words, root, address) == Err::<
            Option<PhysicalAddress>,
            PagingError,
        >(PagingError::MisalignedHugePage),
{
    let page = address / PAGE_SIZE;
    let p4 = top_table(words, root).unwrap();
    let p3 = child(words, p4, p4_index_of(page)).unwrap();
    let p2 = child(words, p3, p3_index_of(page)).unwrap();
    lemma_word_frame_bound(words[(p2, p2_index_of(page))]);
    lemma_window_offsets(address);
}

/// The slots that the address of a table leads through: the address of the
/// table below slot `i4` of the top table leads through the recursive slot
/// three times and then through `i4`, and each step further down trades one
/// pass through the recursive slot for one more slot of the way.
pub proof fn lemma_table_address_slots(i4: u64, i3: u64, i2: u64)
    by (bit_vector)
    requires
        i4 < 512,
        i3 < 512,
        i2 < 512,
    ensures
        ((0xffff_ffff_ffff_f000u64 / 0x1000) / 0x800_0000) % 512 == 511,
        ((0xffff_ffff_ffff_f000u64 / 0x1000) / 0x4_0000) % 512 == 511,
        ((0xffff_ffff_ffff_f000u64 / 0x1000) / 0x200) % 512 == 511,
        (0xffff_ffff_ffff_f000u64 / 0x1000) % 512 == 511,
        ((((0xffff_ffff_ffff_f000u64 << 9) | (i4 << 12)) / 0x1000) / 0x800_0000) % 512 == 511,
        ((((0xffff_ffff_ffff_f000u64 << 9) | (i4 << 12)) / 0x1000) / 0x4_0000) % 512 == 511,
        ((((0xffff_ffff_ffff_f000u64 << 9) | (i4 << 12)) / 0x1000) / 0x200) % 512 == 511,
        (((0xffff_ffff_ffff_f000u64 << 9) | (i4 << 12)) / 0x1000) % 512 == i4,
        ((((((0xffff_ffff_ffff_f000u64 << 9) | (i4 << 12)) << 9) | (i3 << 12)) / 0x1000)
            / 0x800_0000) % 512 == 511,
        ((((((0xffff_ffff_ffff_f000u64 << 9) | (i4 << 12)) << 9) | (i3 << 12)) / 0x1000)
            / 0x4_0000) % 512 == 511,
        ((((((0xffff_ffff_ffff_f000u64 << 9) | (i4 << 12)) << 9) | (i3 << 12)) / 0x1000) / 0x200)
            % 512 == i4,
        (((((0xffff_ffff_ffff_f000u64 << 9) | (i4 << 12)) << 9) | (i3 << 12)) / 0x1000) % 512
            == i3,
        ((((((((0xffff_ffff_ffff_f000u64 << 9) | (i4 << 12)) << 9) | (i3 << 12)) << 9) | (i2
            << 12)) / 0x1000) / 0x800_0000) % 512 == 511,
        ((((((((0xffff_ffff_ffff_f000u64 << 9) | (i4 << 12)) << 9) | (i3 << 12)) << 9) | (i2
            << 12)) / 0x1000) / 0x4_0000) % 512 == i4,
        ((((((((0xffff_ffff_ffff_f000u64 << 9) | (i4 << 12)) << 9) | (i3 << 12)) << 9) | (i2
            << 12)) / 0x1000) / 0x200) % 512 == i3,
        (((((((0xffff_ffff_ffff_f000u64 << 9) | (i4 << 12)) << 9) | (i3 << 12)) << 9) | (i2
            << 12)) / 0x1000) % 512 == i2,
{
}

/// What the processor translates the page with index `page` to when the
/// root table lies in frame `root`: it walks down from the root table
/// itself.
pub open spec fn hardware_translation(words: Words, root: u64, page: u64) -> Result<
    Option<Frame>,
    PagingError,
> {
    walk(words, root, page)
}

/// The recursive scheme reaches every table on the way to a page.  Where the
/// recursive slot of the root table names a top table that names itself, the
/// processor translates the address of the top table to the frame of the
/// top table, and the address that `child_address` gives for each table
/// further down to the frame of that table.
#[verifier::rlimit(30)]
pub proof fn lemma_recursive_addresses(words: Words, root: u64, page: u64)
    requires
        top_table(words, root) matches Some(top) && child(words, top, 511) == Some(top),
        leaf_table(words, root, page).is_some(),
    ensures
        ({
            let top = top_table(words, root).unwrap();
            let (p3, p2, p1) = path_tables(words, top, page);
            let a4 = 0xffff_ffff_ffff_f000u64;
            let a3 = child_address(a4, p4_index_of(page));
            let a2 = child_address(a3, p3_index_of(page));
            let a1 = child_address(a2, p2_index_of(page));
            &&& hardware_translation(words, root, a4 / PAGE_SIZE) == Ok::<
                Option<Frame>,
                PagingError,
            >(Some(Frame { number: top }))
            &&& hardware_translation(words, root, a3 / PAGE_SIZE) == Ok::<
                Option<Frame>,
                PagingError,
            >(Some(Frame { number: p3 }))
            &&& hardware_translation(words, root, a2 / PAGE_SIZE) == Ok::<
                Option<Frame>,
                PagingError,
            >(Some(Frame { number: p2 }))
            &&& hardware_translation(words, root, a1 / PAGE_SIZE) == Ok::<
                Option<Frame>,
                PagingError,
            >(Some(Frame { number: p1 }))
        }),
{
    let i4 = p4_index_of(page) as u64;
    let i3 = p3_index_of(page) as u64;
    let i2 = p2_index_of(page) as u64;
    lemma_table_address_slots(i4, i3, i2);
}

} // verus!
