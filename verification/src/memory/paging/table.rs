//! Page tables of the four levels of the hierarchy.
//!
//! A table is a frame of 512 entries.  A `Table` is a handle on such a frame:
//! it records where the frame lies, at which virtual address the recursive
//! slot of the root table makes it appear, and which tables lead to it.  The
//! level of a table is part of its type, so that a table of level 1, whose
//! entries name pages and not tables, has no operation that follows an entry
//! down.

use vstd::prelude::*;
use core::marker::PhantomData;
use crate::memory::Frame;
use crate::memory::VirtualAddress;
use crate::memory::frame_allocator::FrameAllocator;
use crate::memory::paging::PagingError;
use crate::memory::paging::entry::Entry;
use crate::memory::paging::entry::EntryFlags;
use crate::memory::paging::entry::FRAME_LIMIT;
use crate::memory::paging::entry::PRESENT;
use crate::memory::paging::entry::WRITABLE;
use crate::memory::paging::entry::encode;
use crate::memory::paging::entry::lemma_encode_decode;
use crate::memory::paging::entry::word_huge;
use crate::memory::paging::entry::word_table;
use crate::memory::ram::PhysicalMemory;
use crate::memory::ram::Words;
use crate::memory::ram::cleared;

verus! {

/// Virtual address at which the recursive slot makes the root table appear.
pub const P4_ADDRESS: u64 = 0xffff_ffff_ffff_f000;

/// The slot of a root table that names the root table itself.
pub const RECURSIVE_INDEX: usize = 511;

/// The level of a page table.
pub trait TableLevel {

}

/// The level of a page table whose entries name tables of the next level.
pub trait HierarchicalLevel: TableLevel {
    type NextLevel: TableLevel;
}

pub struct Level4 {}

pub struct Level3 {}

pub struct Level2 {}

pub struct Level1 {}

impl TableLevel for Level4 {

}

impl TableLevel for Level3 {

}

impl TableLevel for Level2 {

}

impl TableLevel for Level1 {

}

impl HierarchicalLevel for Level4 {
    type NextLevel = Level3;
}

impl HierarchicalLevel for Level3 {
    type NextLevel = Level2;
}

impl HierarchicalLevel for Level2 {
    type NextLevel = Level1;
}

/// The table that entry `index` of the table in frame `table` leads to.
pub open spec fn child(words: Words, table: u64, index: int) -> Option<u64> {
    word_table(words[(table, index)])
}

/// The virtual address of the table that entry `index` of the table at
/// `address` leads to.
pub open spec fn child_address(address: u64, index: int) -> u64 {
    (address << 9) | ((index as u64) << 12)
}

/// Why the frame `allocated`, or the lack of one, is refused as the frame of
/// a new table below a table with the lineage `lineage`; `None` where it is
/// taken.
pub open spec fn refusal(allocated: Option<Frame>, lineage: Set<u64>) -> Option<PagingError> {
    match allocated {
        None => Some(PagingError::OutOfFrames),
        Some(f) => if f.number >= FRAME_LIMIT {
            Some(PagingError::InvalidFrame)
        } else if lineage.contains(f.number) {
            Some(PagingError::TableInUse)
        } else {
            None
        },
    }
}

/// `words` after a new table in frame `frame` was hung into slot `index` of
/// the table in frame `table`: the new table is empty and the slot names it,
/// present and writable.
pub open spec fn with_new_table(words: Words, table: u64, index: int, frame: u64) -> Words {
    cleared(words, frame).insert((table, index), encode(frame, PRESENT | WRITABLE))
}

/// The flags of an entry that names a table: present and writable, and no
/// huge page.
pub proof fn lemma_table_flags()
    by (bit_vector)
    ensures
        (0x1u64 | 0x2) & 0x8000_0000_0000_01ff == 0x1u64 | 0x2,
        (0x1u64 | 0x2) & 0x1 == 0x1,
        (0x1u64 | 0x2) & 0x80 == 0,
        (0x2u64 & 0x8000_0000_0000_01ff) | 0x1 == 0x1u64 | 0x2,
{
}

/// A handle on the page table in one frame.
pub struct Table<L: TableLevel> {
    frame: u64,
    address: VirtualAddress,
    above: Vec<u64>,
    level: PhantomData<L>,
}

impl<L: TableLevel> Table<L> {
    /// The index of the frame that holds the table.
    pub closed spec fn frame_number(&self) -> u64 {
        self.frame
    }

    /// The virtual address of the table.
    pub closed spec fn address(&self) -> u64 {
        self.address
    }

    /// The frames that hold this table, the tables that lead to it and the
    /// root table of the address space in force.
    pub closed spec fn lineage(&self) -> Set<u64> {
        self.above@.to_set().insert(self.frame)
    }

    /// The frame that holds the table.
    pub fn frame(&self) -> (frame: Frame)
        ensures
            frame.number == self.frame_number(),
    {
        Frame { number: self.frame }
    }

    /// The virtual address of the table.
    pub fn start_address(&self) -> (address: VirtualAddress)
        ensures
            address == self.address(),
    {
        self.address
    }

    /// The entry in slot `index`.
    pub fn entry(&self, memory: &PhysicalMemory, index: usize) -> (entry: Entry)
        requires
            index < 512,
        ensures
            entry.0 == memory@[(self.frame_number(), index as int)],
    {
        Entry(memory.read(&Frame { number: self.frame }, index))
    }

    /// Stores `entry` in slot `index`.
    pub fn set_entry(&self, memory: &mut PhysicalMemory, index: usize, entry: Entry)
        requires
            index < 512,
        ensures
            final(memory)@ == old(memory)@.insert((self.frame_number(), index as int), entry.0),
    {
        memory.write(&Frame { number: self.frame }, index, entry.0);
    }

    /// Empties every slot of the table.
    pub fn clear(&self, memory: &mut PhysicalMemory)
        ensures
            final(memory)@ == cleared(old(memory)@, self.frame_number()),
    {
        memory.clear_frame(&Frame { number: self.frame });
    }
}

impl<L: HierarchicalLevel> Table<L> {
    /// The handle on the table in frame `frame`, reached from this table.
    fn below(&self, frame: u64, address: VirtualAddress) -> (table: Table<L::NextLevel>)
        ensures
            table.frame_number() == frame,
            table.address() == address,
            table.lineage() == self.lineage().insert(frame),
    {
        let mut above: Vec<u64> = Vec::new();
        let mut i: usize = 0;
        while i < self.above.len()
            invariant
                i <= self.above@.len(),
                above@ == self.above@.take(i as int),
            decreases self.above@.len() - i,
        {
            above.push(self.above[i]);
            assert(above@ =~= self.above@.take(i + 1));
            i += 1;
        }
        assert(above@ =~= self.above@);
        above.push(self.frame);
        let table = Table { frame, address, above, level: PhantomData };
        assert forall|f: u64| table.lineage().contains(f) <==> self.lineage().insert(
            frame,
        ).contains(f) by {
            if table.above@.contains(f) {
                let k = choose|k: int| 0 <= k < table.above@.len() && table.above@[k] == f;
                if k < self.above@.len() {
                    assert(self.above@[k] == f);
                }
            }
            if self.above@.contains(f) {
                let k = choose|k: int| 0 <= k < self.above@.len() && self.above@[k] == f;
                assert(table.above@[k] == f);
            }
            if f == self.frame {
                assert(table.above@[self.above@.len() as int] == f);
            }
        }
        assert(table.lineage() =~= self.lineage().insert(frame));
        table
    }

    /// Whether `frame` holds this table, a table that leads to it, or the
    /// root table of the address space in force.
    fn in_lineage(&self, frame: u64) -> (found: bool)
        ensures
            found == self.lineage().contains(frame),
    {
        let mut i: usize = 0;
        while i < self.above.len()
            invariant
                i <= self.above@.len(),
                forall|k: int| 0 <= k < i ==> self.above@[k] != frame,
            decreases self.above@.len() - i,
        {
            if self.above[i] == frame {
                return true;
            }
            i += 1;
        }
        assert(!self.above@.contains(frame));
        self.frame == frame
    }
}

impl Table<Level4> {
    /// A handle on the top table in frame `frame`, seen through the
    /// recursive slot of the root table in frame `root` of the address space
    /// in force.  The frames `pinned` count among those that lead to the
    /// table: no new table is put into them.
    pub fn top(frame: &Frame, root: &Frame, pinned: &Vec<u64>) -> (table: Table<Level4>)
        ensures
            table.frame_number() == frame.number,
            table.address() == P4_ADDRESS,
            table.lineage() == pinned@.to_set().insert(root.number).insert(frame.number),
    {
        let mut above: Vec<u64> = Vec::new();
        let mut i: usize = 0;
        while i < pinned.len()
            invariant
                i <= pinned@.len(),
                above@ == pinned@.take(i as int),
            decreases pinned@.len() - i,
        {
            above.push(pinned[i]);
            assert(above@ =~= pinned@.take(i + 1));
            i += 1;
        }
        assert(above@ =~= pinned@);
        above.push(root.number);
        let table = Table { frame: frame.number, address: P4_ADDRESS, above, level: PhantomData };
        assert forall|f: u64|
            table.lineage().contains(f) <==> pinned@.to_set().insert(root.number).insert(
                frame.number,
            ).contains(f) by {
            if table.above@.contains(f) {
                let k = choose|k: int| 0 <= k < table.above@.len() && table.above@[k] == f;
                if k < pinned@.len() {
                    assert(pinned@[k] == f);
                }
            }
            if pinned@.contains(f) {
                let k = choose|k: int| 0 <= k < pinned@.len() && pinned@[k] == f;
                assert(table.above@[k] == f);
            }
            if f == root.number {
                assert(table.above@[pinned@.len() as int] == f);
            }
        }
        assert(table.lineage() =~= pinned@.to_set().insert(root.number).insert(frame.number));
        table
    }
}

impl Table<Level1> {
    /// A handle on frame `frame` as a table of level 1, seen through the
    /// page at `address`.
    pub fn window(frame: &Frame, address: VirtualAddress) -> (table: Table<Level1>)
        ensures
            table.frame_number() == frame.number,
            table.address() == address,
            table.lineage() == set![frame.number],
    {
        let table = Table { frame: frame.number, address, above: Vec::new(), level: PhantomData };
        assert(table.lineage() =~= set![frame.number]);
        table
    }
}

impl<L: HierarchicalLevel> Table<L> {
    /// The virtual address of the table that the entry in slot `index` leads
    /// to: the address of this table shifted left by 9 bits, with `index` put
    /// in at bit 12.  `None` where the entry is absent or a huge-page leaf.
    pub fn next_table_address(&self, memory: &PhysicalMemory, index: usize) -> (address: Option<
        VirtualAddress,
    >)
        requires
            index < 512,
        ensures
            address.is_some() <==> child(memory@, self.frame_number(), index as int).is_some(),
            address matches Some(a) ==> a == child_address(self.address(), index as int),
    {
        let word = self.entry(memory, index).0;
        if word & PRESENT == PRESENT && word & 0x80 != 0x80 {
            Some((self.address << 9) | ((index as u64) << 12))
        } else {
            None
        }
    }

    /// The table that the entry in slot `index` leads to; `None` where the
    /// entry is absent or a huge-page leaf.
    pub fn next_table(&self, memory: &PhysicalMemory, index: usize) -> (table: Option<
        Table<L::NextLevel>,
    >)
        requires
            index < 512,
        ensures
            table.is_some() <==> child(memory@, self.frame_number(), index as int).is_some(),
            table matches Some(t) ==> {
                &&& Some(t.frame_number()) == child(memory@, self.frame_number(), index as int)
                &&& t.frame_number() < FRAME_LIMIT
                &&& t.address() == child_address(self.address(), index as int)
                &&& t.lineage() == self.lineage().insert(t.frame_number())
            },
    {
        match self.next_table_address(memory, index) {
            Some(address) => {
                let entry = self.entry(memory, index);
                match entry.frame() {
                    Some(frame) => {
                        Some(self.below(frame.number, address))
                    },
                    None => None,
                }
            },
            None => None,
        }
    }

    /// Hangs a new table into slot `index`, given what the allocator handed
    /// out for it.  Without a frame there is no table.  A frame is refused
    /// where an entry cannot hold its index, and where it holds this table,
    /// a table that leads to it or the root table in force: to empty such a
    /// frame would tear down the address space.  Otherwise the slot names the
    /// frame, present and writable, and the frame is emptied.
    #[verifier::rlimit(30)]
    pub fn install_table(
        &self,
        memory: &mut PhysicalMemory,
        index: usize,
        allocated: Option<Frame>,
    ) -> (result: Result<Table<L::NextLevel>, PagingError>)
        requires
            index < 512,
        ensures
            allocated.is_none() ==> result matches Err(PagingError::OutOfFrames),
            allocated matches Some(f) ==> (f.number >= FRAME_LIMIT ==> result matches Err(
                PagingError::InvalidFrame,
            )),
            allocated matches Some(f) ==> (f.number < FRAME_LIMIT && self.lineage().contains(
                f.number,
            ) ==> result matches Err(PagingError::TableInUse)),
            allocated matches Some(f) ==> (f.number < FRAME_LIMIT && !self.lineage().contains(
                f.number,
            ) ==> result.is_ok()),
            result.is_err() ==> final(memory)@ == old(memory)@,
            result matches Ok(t) ==> {
                &&& allocated == Some(Frame { number: t.frame_number() })
                &&& t.address() == child_address(self.address(), index as int)
                &&& t.lineage() == self.lineage().insert(t.frame_number())
                &&& final(memory)@ == with_new_table(
                    old(memory)@,
                    self.frame_number(),
                    index as int,
                    t.frame_number(),
                )
            },
    {
        match allocated {
            None => Err(PagingError::OutOfFrames),
            Some(frame) => {
                if frame.number >= FRAME_LIMIT {
                    Err(PagingError::InvalidFrame)
                } else if self.in_lineage(frame.number) {
                    Err(PagingError::TableInUse)
                } else {
                    let number = frame.number;
                    let mut entry = Entry(0);
                    entry.set(frame, EntryFlags::from_bits_truncate(PRESENT | WRITABLE));
                    proof {
                        lemma_table_flags();
                    }
                    self.set_entry(memory, index, entry);
                    let table = self.below(
                        number,
                        (self.address << 9) | ((index as u64) << 12),
                    );
                    table.clear(memory);
                    assert(self.lineage().contains(self.frame));
                    assert(memory@ =~= with_new_table(
                        old(memory)@,
                        self.frame_number(),
                        index as int,
                        number,
                    ));
                    Ok(table)
                }
            },
        }
    }

    /// The table that the entry in slot `index` leads to.  Where the entry is
    /// absent, a frame is taken from `allocator` and hung into the slot as a
    /// new, empty table.  A huge-page entry in the slot is refused.
    #[verifier::rlimit(30)]
    pub fn next_table_create<A: FrameAllocator>(
        &self,
        memory: &mut PhysicalMemory,
        index: usize,
        allocator: &mut A,
    ) -> (result: Result<Table<L::NextLevel>, PagingError>)
        requires
            index < 512,
        ensures
            child(old(memory)@, self.frame_number(), index as int) matches Some(c) ==> {
                &&& result matches Ok(t) && t.frame_number() == c
                &&& final(memory)@ == old(memory)@
                &&& *final(allocator) == *old(allocator)
            },
            child(old(memory)@, self.frame_number(), index as int).is_none() && word_huge(
                old(memory)@[(self.frame_number(), index as int)],
            ) ==> {
                &&& result matches Err(PagingError::HugePage)
                &&& *final(allocator) == *old(allocator)
            },
            result.is_err() ==> final(memory)@ == old(memory)@,
            result matches Err(e) ==> e == PagingError::HugePage || e == PagingError::OutOfFrames
                || e == PagingError::InvalidFrame || e == PagingError::TableInUse,
            result == Err::<Table<L::NextLevel>, PagingError>(PagingError::HugePage) ==> child(
                old(memory)@,
                self.frame_number(),
                index as int,
            ).is_none() && word_huge(old(memory)@[(self.frame_number(), index as int)]),
            result.is_err() && result != Err::<Table<L::NextLevel>, PagingError>(
                PagingError::HugePage,
            ) ==> exists|a: &mut A, got: Option<Frame>|
                *a == *old(allocator) && *final(a) == *final(allocator) && call_ensures(
                    A::allocate_frame,
                    (a,),
                    got,
                ) && refusal(got, self.lineage()) == Some(result->Err_0),
            result matches Ok(t) ==> {
                &&& child(final(memory)@, self.frame_number(), index as int) == Some(
                    t.frame_number(),
                )
                &&& t.frame_number() < FRAME_LIMIT
                &&& t.address() == child_address(self.address(), index as int)
                &&& t.lineage() == self.lineage().insert(t.frame_number())
            },
            result matches Ok(t) ==> forall|g: u64|
                g != t.frame_number() ==> #[trigger] final(allocator).available(g) == old(
                    allocator,
                ).available(g),
            result matches Ok(t) ==> (child(
                old(memory)@,
                self.frame_number(),
                index as int,
            ).is_none() ==> {
                &&& !self.lineage().contains(t.frame_number())
                &&& old(allocator).available(t.frame_number())
                &&& !final(allocator).available(t.frame_number())
                &&& final(memory)@ == with_new_table(
                    old(memory)@,
                    self.frame_number(),
                    index as int,
                    t.frame_number(),
                )
            }),
            forall|g: u64|
                #[trigger] final(allocator).available(g) ==> old(allocator).available(g),
    {
        match self.next_table(memory, index) {
            Some(table) => Ok(table),
            None => {
                if self.entry(memory, index).0 & 0x80 == 0x80 {
                    Err(PagingError::HugePage)
                } else {
                    let allocated = allocator.allocate_frame();
                    let result = self.install_table(memory, index, allocated);
                    proof {
                        if result.is_ok() {
                            lemma_table_flags();
                            lemma_encode_decode(result.unwrap().frame_number(), PRESENT | WRITABLE);
                        }
                    }
                    result
                }
            },
        }
    }
}

} // verus!
