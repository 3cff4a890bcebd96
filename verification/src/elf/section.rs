//! The sections of an ELF executable.

use vstd::prelude::*;
use vstd::slice::slice_subrange;
use crate::elf::read_u32;
use crate::elf::read_u64;
use crate::elf::u32_at;
use crate::elf::u64_at;

verus! {

/// The header of a section.
#[derive(Debug, Clone, Copy, PartialEq, Eq, Structural)]
pub struct SectionHeader {
    /// Where the name of the section lies in the string table.
    pub sh_name: u32,
    pub sh_type: u32,
    pub sh_flags: u64,
    /// The address of the section while the program runs.
    pub sh_addr: u64,
    /// Where the bytes of the section lie in the file.
    pub sh_offset: u64,
    /// How many bytes the section has.
    pub sh_size: u64,
    /// The section that this one goes with.
    pub sh_link: u32,
    pub sh_info: u32,
    pub sh_addralign: u64,
    pub sh_entsize: u64,
}

/// The header of a section that lies at `at` in `data`.
pub open spec fn section_header_at(data: Seq<u8>, at: int) -> SectionHeader {
    SectionHeader {
        sh_name: u32_at(data, at),
        sh_type: u32_at(data, at + 4),
        sh_flags: u64_at(data, at + 8),
        sh_addr: u64_at(data, at + 16),
        sh_offset: u64_at(data, at + 24),
        sh_size: u64_at(data, at + 32),
        sh_link: u32_at(data, at + 40),
        sh_info: u32_at(data, at + 44),
        sh_addralign: u64_at(data, at + 48),
        sh_entsize: u64_at(data, at + 56),
    }
}

impl SectionHeader {
    /// Whether the bytes of the section lie within a file of `length` bytes.
    pub open spec fn within(&self, length: int) -> bool {
        self.sh_offset + self.sh_size <= length
    }

    /// The header of a section that lies at `at` in `data`.
    pub fn read(data: &[u8], at: usize) -> (header: SectionHeader)
        requires
            at + 64 <= data@.len(),
        ensures
            header == section_header_at(data@, at as int),
    {
        let length = data.len();
        SectionHeader {
            sh_name: read_u32(data, at),
            sh_type: read_u32(data, at + 4),
            sh_flags: read_u64(data, at + 8),
            sh_addr: read_u64(data, at + 16),
            sh_offset: read_u64(data, at + 24),
            sh_size: read_u64(data, at + 32),
            sh_link: read_u32(data, at + 40),
            sh_info: read_u32(data, at + 44),
            sh_addralign: read_u64(data, at + 48),
            sh_entsize: read_u64(data, at + 56),
        }
    }
}

/// A section: its header and its bytes.
pub struct Section<'a> {
    header: SectionHeader,
    data: &'a [u8],
}

impl<'a> Section<'a> {
    #[verifier::type_invariant]
    spec fn sized(self) -> bool {
        self.data@.len() == self.header.sh_size
    }

    /// The header of the section.
    pub closed spec fn header(&self) -> SectionHeader {
        self.header
    }

    /// The bytes of the section.
    pub closed spec fn bytes(&self) -> Seq<u8> {
        self.data@
    }

    /// The section with the header `header` in the file with the bytes
    /// `file`; `None` where the bytes of the section do not lie within the
    /// file.
    pub fn new(file: &'a [u8], header: SectionHeader) -> (section: Option<Section<'a>>)
        ensures
            section.is_some() <==> header.within(file@.len() as int),
            section matches Some(s) ==> s.header() == header && s.bytes() == file@.subrange(
                header.sh_offset as int,
                header.sh_offset + header.sh_size,
            ),
    {
        let length = file.len() as u128;
        if header.sh_offset as u128 + header.sh_size as u128 <= length {
            let start = header.sh_offset as usize;
            let end = start + header.sh_size as usize;
            Some(Section { header, data: slice_subrange(file, start, end) })
        } else {
            None
        }
    }

    /// The header of the section.
    pub fn header_copy(&self) -> (header: SectionHeader)
        ensures
            header == self.header(),
            self.bytes().len() == header.sh_size,
    {
        proof {
            use_type_invariant(self);
        }
        self.header
    }

    /// The bytes of the section.
    pub fn data(&self) -> (data: &'a [u8])
        ensures
            data@ == self.bytes(),
            data@.len() == self.header().sh_size,
    {
        proof {
            use_type_invariant(self);
        }
        self.data
    }

    /// How many entries of `entry_size` bytes each the section holds.
    pub fn entries_count(&self, entry_size: usize) -> (count: usize)
        requires
            entry_size > 0,
        ensures
            count == self.header().sh_size as int / entry_size as int,
            count * entry_size <= self.bytes().len(),
    {
        proof {
            use_type_invariant(self);
            vstd::arithmetic::div_mod::lemma_fundamental_div_mod(
                self.data@.len() as int,
                entry_size as int,
            );
            vstd::arithmetic::div_mod::lemma_mod_pos_bound(
                self.data@.len() as int,
                entry_size as int,
            );
            assert(entry_size * (self.data@.len() as int / entry_size as int) == (self.data@.len()
                as int / entry_size as int) * entry_size) by (nonlinear_arith);
        }
        self.data.len() / entry_size
    }

    /// The bytes of the entry with the index `index`, where the section is
    /// one of entries of `entry_size` bytes each; `None` where it holds
    /// fewer entries.
    pub fn entry(&self, index: usize, entry_size: usize) -> (entry: Option<&'a [u8]>)
        requires
            entry_size > 0,
        ensures
            entry.is_some() <==> index < self.header().sh_size as int / entry_size as int,
            entry matches Some(bytes) ==> bytes@ == self.bytes().subrange(
                index * entry_size,
                index * entry_size + entry_size,
            ),
    {
        let count = self.entries_count(entry_size);
        if index < count {
            let data = self.data();
            let length = data.len();
            assert(0 <= index * entry_size && index * entry_size + entry_size <= count
                * entry_size) by (nonlinear_arith)
                requires
                    index < count,
                    entry_size > 0,
            ;
            let start = index * entry_size;
            Some(slice_subrange(data, start, start + entry_size))
        } else {
            None
        }
    }

    /// Where in the file the byte lies that is `offset` bytes into the
    /// section; `None` where no file is that long.
    pub fn offset(&self, offset: u64) -> (place: Option<u64>)
        ensures
            place.is_some() <==> self.header().sh_offset + offset <= u64::MAX,
            place matches Some(p) ==> p == self.header().sh_offset + offset,
    {
        self.header.sh_offset.checked_add(offset)
    }

    /// Where the name of the section lies in the string table.
    pub fn sh_name(&self) -> (name: usize)
        ensures
            name == self.header().sh_name,
    {
        self.header.sh_name as usize
    }

    /// Section type
    pub fn sh_type(&self) -> (value: u32)
        ensures
            value == self.header().sh_type,
    {
        self.header.sh_type
    }

    /// Section flags: the lower 32 bits of them.
    pub fn sh_flags(&self) -> (value: u32)
        ensures
            value == self.header().sh_flags % 0x1_0000_0000,
    {
        (self.header.sh_flags % 0x1_0000_0000) as u32
    }

    /// Section virtual addr at execution
    pub fn sh_addr(&self) -> (value: u64)
        ensures
            value == self.header().sh_addr,
    {
        self.header.sh_addr
    }

    /// Section file offset
    pub fn sh_offset(&self) -> (value: u64)
        ensures
            value == self.header().sh_offset,
    {
        self.header.sh_offset
    }

    /// Section file size
    pub fn sh_size(&self) -> (value: u64)
        ensures
            value == self.header().sh_size,
    {
        self.header.sh_size
    }

    /// Link to another section
    pub fn sh_link(&self) -> (value: usize)
        ensures
            value == self.header().sh_link,
    {
        self.header.sh_link as usize
    }
}

} // verus!
