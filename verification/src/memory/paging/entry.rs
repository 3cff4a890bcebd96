//! The 64-bit page-table entry of the hardware: permission bits in bits 0 to
//! 11 and in bit 63, the index of a physical frame in bits 12 to 51.

use vstd::prelude::*;
use crate::memory::Frame;

verus! {

/// The entry takes part in translation.
pub const PRESENT: u64 = 0x1;

/// The memory behind the entry may be written.
pub const WRITABLE: u64 = 0x2;

/// Code outside the kernel may use the entry.
pub const USER_ACCESSIBLE: u64 = 0x4;

/// Writes go straight through to memory.
pub const WRITE_THROUGH: u64 = 0x8;

/// The memory behind the entry is not cached.
pub const NO_CACHE: u64 = 0x10;

/// Set by the processor when the entry is used.
pub const ACCESSED: u64 = 0x20;

/// Set by the processor when the memory behind the entry is written.
pub const DIRTY: u64 = 0x40;

/// In a level-3 or level-2 table: the entry is a leaf that maps 1 GiB or
/// 2 MiB at once.
pub const HUGE_PAGE: u64 = 0x80;

/// The translation survives a switch of address space.
pub const GLOBAL: u64 = 0x100;

/// No instruction is fetched from the memory behind the entry.
pub const NO_EXECUTE: u64 = 0x8000_0000_0000_0000;

/// Every bit that is a flag.
pub const ALL_FLAGS: u64 = 0x8000_0000_0000_01ff;

/// The bits of an entry that hold the address of its frame.
pub const ADDRESS_MASK: u64 = 0x000f_ffff_ffff_f000;

/// Frames with an index below this limit fit into an entry.
pub const FRAME_LIMIT: u64 = 0x100_0000_0000;

/// A section of the boot image may be written.
pub const ELF_SECTION_WRITABLE: u64 = 0x1;

/// A section of the boot image occupies memory while the kernel runs.
pub const ELF_SECTION_ALLOCATED: u64 = 0x2;

/// A section of the boot image holds instructions.
pub const ELF_SECTION_EXECUTABLE: u64 = 0x4;

/// Whether the entry `word` takes part in translation.
pub open spec fn word_present(word: u64) -> bool {
    word & PRESENT == PRESENT
}

/// Whether the entry `word` carries the huge-page flag.
pub open spec fn word_huge(word: u64) -> bool {
    word & HUGE_PAGE == HUGE_PAGE
}

/// The index of the frame that the entry `word` names.
pub open spec fn word_frame(word: u64) -> u64 {
    (word & ADDRESS_MASK) / 0x1000
}

/// The flag bits of the entry `word`.
pub open spec fn word_flags(word: u64) -> u64 {
    word & ALL_FLAGS
}

/// The entry that names frame `frame` with the flag bits `flags`.
pub open spec fn encode(frame: u64, flags: u64) -> u64 {
    ((frame * 0x1000) as u64) | flags
}

/// What the processor does with an entry of a table above level 1: the index
/// of the table below, where the entry is present and no huge-page leaf.
pub open spec fn word_table(word: u64) -> Option<u64> {
    if word_present(word) && !word_huge(word) {
        Some(word_frame(word))
    } else {
        None
    }
}

/// An entry built from a frame and flags gives both back, and is in use.
pub proof fn lemma_encode_decode(frame: u64, flags: u64)
    by (bit_vector)
    requires
        frame < 0x100_0000_0000,
        flags & 0x8000_0000_0000_01ff == flags,
    ensures
        ((((frame * 0x1000) as u64) | flags) & 0x000f_ffff_ffff_f000) / 0x1000 == frame,
        (((frame * 0x1000) as u64) | flags) & 0x8000_0000_0000_01ff == flags,
        (((frame * 0x1000) as u64) | flags) & 0x1 == flags & 0x1,
        (((frame * 0x1000) as u64) | flags) & 0x80 == flags & 0x80,
        flags & 0x1 == 0x1 ==> (((frame * 0x1000) as u64) | flags) != 0,
{
}

/// The frame index held in any entry is below the limit.
pub proof fn lemma_word_frame_bound(word: u64)
    by (bit_vector)
    ensures
        (word & 0x000f_ffff_ffff_f000) / 0x1000 < 0x100_0000_0000,
        0u64 & 0x1 == 0,
        0u64 & 0x80 == 0,
        (0u64 & 0x000f_ffff_ffff_f000) / 0x1000 == 0,
{
}

/// Facts about joining and testing flag bits.
pub proof fn lemma_flag_bits(a: u64, b: u64)
    by (bit_vector)
    ensures
        a & 0x8000_0000_0000_01ff == a && b & 0x8000_0000_0000_01ff == b ==> (a | b)
            & 0x8000_0000_0000_01ff == (a | b),
        (a & 0x8000_0000_0000_01ff) & 0x8000_0000_0000_01ff == a & 0x8000_0000_0000_01ff,
        (a | b) & b == b,
        (a | 0x1) & 0x1 == 0x1,
        (a | 0x1) & 0x80 == a & 0x80,
        a & 0x8000_0000_0000_01ff == a ==> (a | 0x1) & 0x8000_0000_0000_01ff == (a | 0x1),
        0x1u64 & 0x8000_0000_0000_01ff == 0x1,
{
}

/// A set of permission bits of a page-table entry.
#[derive(Debug, Clone, Copy, PartialEq, Eq, Structural)]
pub struct EntryFlags {
    bits: u64,
}

impl EntryFlags {
    #[verifier::type_invariant]
    spec fn only_flags(self) -> bool {
        self.bits & ALL_FLAGS == self.bits
    }

    /// The flags as the bits of an entry.
    pub closed spec fn value(&self) -> u64 {
        self.bits
    }

    /// No flag at all.
    pub fn empty() -> (flags: EntryFlags)
        ensures
            flags.value() == 0,
    {
        assert(0u64 & 0x8000_0000_0000_01ff == 0) by (bit_vector);
        EntryFlags { bits: 0 }
    }

    /// The flags among `bits`; bits that are no flag are dropped.
    pub fn from_bits_truncate(bits: u64) -> (flags: EntryFlags)
        ensures
            flags.value() == bits & ALL_FLAGS,
    {
        proof {
            lemma_flag_bits(bits, 0);
        }
        EntryFlags { bits: bits & ALL_FLAGS }
    }

    /// The flags as the bits of an entry.
    pub fn bits(&self) -> (bits: u64)
        ensures
            bits == self.value(),
            bits & ALL_FLAGS == bits,
    {
        proof {
            use_type_invariant(self);
        }
        self.bits
    }

    /// Whether every flag of `other` is among these.
    pub fn contains(&self, other: EntryFlags) -> (all: bool)
        ensures
            all == (self.value() & other.value() == other.value()),
    {
        self.bits & other.bits == other.bits
    }

    /// The flags of either set.
    pub fn union(self, other: EntryFlags) -> (flags: EntryFlags)
        ensures
            flags.value() == self.value() | other.value(),
    {
        proof {
            use_type_invariant(self);
            use_type_invariant(other);
            lemma_flag_bits(self.bits, other.bits);
        }
        EntryFlags { bits: self.bits | other.bits }
    }

    /// The flags for the pages of a section of the boot image, from the
    /// attributes that the section declares: present where it is allocated,
    /// writable where it is writable, no-execute where it holds no code.
    pub fn from_elf_section_flags(section_flags: u64) -> (flags: EntryFlags)
        ensures
            flags.value() == section_entry_bits(section_flags),
    {
        let mut flags = EntryFlags::empty();
        if section_flags & ELF_SECTION_ALLOCATED != 0 {
            flags = flags.union(EntryFlags::from_bits_truncate(PRESENT));
        }
        if section_flags & ELF_SECTION_WRITABLE != 0 {
            flags = flags.union(EntryFlags::from_bits_truncate(WRITABLE));
        }
        if section_flags & ELF_SECTION_EXECUTABLE == 0 {
            flags = flags.union(EntryFlags::from_bits_truncate(NO_EXECUTE));
        }
        proof {
            lemma_section_bits(section_flags);
        }
        flags
    }
}

/// The entry bits that a section of the boot image with the attribute bits
/// `section_flags` is mapped with.
pub open spec fn section_entry_bits(section_flags: u64) -> u64 {
    (if section_flags & ELF_SECTION_ALLOCATED != 0 {
        PRESENT
    } else {
        0
    }) | (if section_flags & ELF_SECTION_WRITABLE != 0 {
        WRITABLE
    } else {
        0
    }) | (if section_flags & ELF_SECTION_EXECUTABLE == 0 {
        NO_EXECUTE
    } else {
        0
    })
}

proof fn lemma_section_bits(s: u64)
    by (bit_vector)
    ensures
        0x1u64 & 0x8000_0000_0000_01ff == 0x1,
        0x2u64 & 0x8000_0000_0000_01ff == 0x2,
        0x8000_0000_0000_0000u64 & 0x8000_0000_0000_01ff == 0x8000_0000_0000_0000,
        forall|x: u64| #[trigger] (x | 0) == x,
        forall|x: u64| #[trigger] (0 | x) == x,
{
}

/// One slot of a page table.
#[derive(Debug, Clone, Copy, PartialEq, Eq, Structural)]
pub struct Entry(pub u64);

impl Entry {
    /// Whether the slot is empty: no bit of it is set.
    pub fn is_unused(&self) -> (unused: bool)
        ensures
            unused == (self.0 == 0),
    {
        self.0 == 0
    }

    /// Whether the entry takes part in translation.
    pub fn is_present(&self) -> (present: bool)
        ensures
            present == word_present(self.0),
    {
        self.0 & PRESENT == PRESENT
    }

    /// Whether the entry carries the huge-page flag.
    pub fn is_huge(&self) -> (huge: bool)
        ensures
            huge == word_huge(self.0),
    {
        self.0 & HUGE_PAGE == HUGE_PAGE
    }

    /// Empties the slot.
    pub fn set_unused(&mut self)
        ensures
            final(self).0 == 0,
    {
        self.0 = 0;
    }

    /// The flags of the entry.
    pub fn flags(&self) -> (flags: EntryFlags)
        ensures
            flags.value() == word_flags(self.0),
    {
        EntryFlags::from_bits_truncate(self.0)
    }

    /// The frame that the entry names, where the entry is present.
    pub fn frame(&self) -> (frame: Option<Frame>)
        ensures
            frame.is_some() <==> word_present(self.0),
            frame matches Some(f) ==> f.number == word_frame(self.0) && f.number < FRAME_LIMIT,
    {
        proof {
            lemma_word_frame_bound(self.0);
        }
        if self.0 & PRESENT == PRESENT {
            Some(Frame::containing_address(self.0 & ADDRESS_MASK))
        } else {
            None
        }
    }

    /// Lets the entry name `frame` with `flags`.  The frame lies below the
    /// limit of what an entry can hold.
    pub fn set(&mut self, frame: Frame, flags: EntryFlags)
        requires
            frame.number < FRAME_LIMIT,
        ensures
            final(self).0 == encode(frame.number, flags.value()),
            word_frame(final(self).0) == frame.number,
            word_flags(final(self).0) == flags.value(),
    {
        let bits = flags.bits();
        proof {
            lemma_encode_decode(frame.number, bits);
        }
        self.0 = frame.start_address() | bits;
    }
}

} // verus!
