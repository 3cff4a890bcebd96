//! ELF executables of 64 bits, read from their bytes.
//!
//! Numbers lie in the file with their lowest byte first.  Whatever the file
//! says of where its parts lie is held against the length of the file: a
//! part that does not lie within the file is not there.

use vstd::bytes::spec_u16_from_le_bytes;
use vstd::bytes::spec_u32_from_le_bytes;
use vstd::bytes::spec_u64_from_le_bytes;
use vstd::bytes::u16_from_le_bytes;
use vstd::bytes::u32_from_le_bytes;
use vstd::bytes::u64_from_le_bytes;
use vstd::prelude::*;
use vstd::slice::slice_subrange;
use crate::elf::section::Section;
use crate::elf::section::SectionHeader;
use crate::elf::section::section_header_at;
use crate::elf::strtab::Strtab;
use crate::elf::symbol::Symbol;

pub mod section;
pub mod strtab;
pub mod symbol;

verus! {

/// Bytes of the header of the file.
pub const SIZEOF_EHDR: usize = 64;

/// Bytes of the header of a section.
pub const SIZEOF_SHDR: usize = 64;

/// Bytes of the header of a segment.
pub const SIZEOF_PHDR: usize = 56;

/// Bytes of a symbol.
pub const SIZEOF_SYM: usize = 24;

/// Bytes of a relocation without addend.
pub const SIZEOF_REL: usize = 16;

/// Where in the file the byte lies that tells files of 32 and of 64 bits
/// apart.
pub const EI_CLASS: usize = 4;

/// The class of a file of 64 bits.
pub const ELFCLASS: u8 = 2;

/// The type of a section that holds strings.
pub const SHT_STRTAB: u32 = 3;

/// The type of a section that holds relocations with addends.
pub const SHT_RELA: u32 = 4;

/// The type of a section that takes up no bytes of the file.
pub const SHT_NOBITS: u32 = 8;

/// The type of a section that holds relocations without addends.
pub const SHT_REL: u32 = 9;

/// The flag of a section that occupies memory while the program runs.
pub const SHF_ALLOC: u64 = 2;

/// Why a file, or a part of it, is refused.
#[derive(Debug, Clone, Copy, PartialEq, Eq, Structural)]
pub enum Error {
    /// The file is shorter than its header.
    NotEnoughData,
    /// The file does not start with the four bytes of an ELF file.
    InvalidMagic,
    /// The file is not one of 64 bits.
    InvalidArchitecture,
    /// A symbol that is defined nowhere and that is not weak; with the place
    /// of its name in the string table.
    UndefinedSymbol(u32),
    /// A part that the file names does not lie within it.
    Malformed,
}

/// The number of 16 bits at `at` in `data`.
pub open spec fn u16_at(data: Seq<u8>, at: int) -> u16 {
    spec_u16_from_le_bytes(data.subrange(at, at + 2))
}

/// The number of 32 bits at `at` in `data`.
pub open spec fn u32_at(data: Seq<u8>, at: int) -> u32 {
    spec_u32_from_le_bytes(data.subrange(at, at + 4))
}

/// The number of 64 bits at `at` in `data`.
pub open spec fn u64_at(data: Seq<u8>, at: int) -> u64 {
    spec_u64_from_le_bytes(data.subrange(at, at + 8))
}

/// The number of 16 bits at `at` in `data`.
pub fn read_u16(data: &[u8], at: usize) -> (value: u16)
    requires
        at + 2 <= data@.len(),
    ensures
        value == u16_at(data@, at as int),
{
    let length = data.len();
    u16_from_le_bytes(slice_subrange(data, at, at + 2))
}

/// The number of 32 bits at `at` in `data`.
pub fn read_u32(data: &[u8], at: usize) -> (value: u32)
    requires
        at + 4 <= data@.len(),
    ensures
        value == u32_at(data@, at as int),
{
    let length = data.len();
    u32_from_le_bytes(slice_subrange(data, at, at + 4))
}

/// The number of 64 bits at `at` in `data`.
pub fn read_u64(data: &[u8], at: usize) -> (value: u64)
    requires
        at + 8 <= data@.len(),
    ensures
        value == u64_at(data@, at as int),
{
    let length = data.len();
    u64_from_le_bytes(slice_subrange(data, at, at + 8))
}

/// Whether `data` starts with the four bytes of an ELF file.
pub open spec fn has_magic(data: Seq<u8>) -> bool {
    data.len() >= 4 && data[0] == 0x7f && data[1] == 0x45 && data[2] == 0x4c && data[3] == 0x46
}

/// Where the part with the index `index` lies in a file of `length` bytes,
/// in a table at `table` whose parts are `entry_size` bytes apart, where the
/// `size` bytes of the part lie within the file.
pub open spec fn part_at(length: int, table: u64, entry_size: u16, index: int, size: int)
    -> Option<int> {
    if table + index * entry_size + size <= length {
        Some(table + index * entry_size)
    } else {
        None
    }
}

/// Where the header of the section with the index `index` lies in the file
/// with the bytes `data`.
pub open spec fn section_header_place_in(data: Seq<u8>, index: int) -> Option<int> {
    if 0 <= index < u16_at(data, 60) {
        part_at(data.len() as int, u64_at(data, 40), u16_at(data, 58), index, 64)
    } else {
        None
    }
}

/// The header of the section with the index `index` of the file with the
/// bytes `data`, where the file has such a section and its header and its
/// bytes lie within the file.
pub open spec fn section_header_in(data: Seq<u8>, index: int) -> Option<SectionHeader> {
    match section_header_place_in(data, index) {
        Some(at) => if section_header_at(data, at).within(data.len() as int) {
            Some(section_header_at(data, at))
        } else {
            None
        },
        None => None,
    }
}

/// The header of a segment.
#[derive(Debug, Clone, Copy, PartialEq, Eq, Structural)]
pub struct ProgramHeader {
    pub p_type: u32,
    pub p_flags: u32,
    pub p_offset: u64,
    pub p_vaddr: u64,
    pub p_paddr: u64,
    pub p_filesz: u64,
    pub p_memsz: u64,
    pub p_align: u64,
}

/// The header of a segment that lies at `at` in `data`.
pub open spec fn program_header_at(data: Seq<u8>, at: int) -> ProgramHeader {
    ProgramHeader {
        p_type: u32_at(data, at),
        p_flags: u32_at(data, at + 4),
        p_offset: u64_at(data, at + 8),
        p_vaddr: u64_at(data, at + 16),
        p_paddr: u64_at(data, at + 24),
        p_filesz: u64_at(data, at + 32),
        p_memsz: u64_at(data, at + 40),
        p_align: u64_at(data, at + 48),
    }
}

/// A relocation: where it applies, and which symbol in which way.
#[derive(Debug, Clone, Copy, PartialEq, Eq, Structural)]
pub struct Reloc {
    pub r_offset: u64,
    pub r_sym: u32,
    pub r_type: u32,
}

/// The relocation without addend that lies at `at` in `data`: the symbol
/// is the upper half of its second number, the type the lower half.
pub open spec fn reloc_at(data: Seq<u8>, at: int) -> Reloc {
    Reloc {
        r_offset: u64_at(data, at),
        r_sym: (u64_at(data, at + 8) / 0x1_0000_0000) as u32,
        r_type: (u64_at(data, at + 8) % 0x1_0000_0000) as u32,
    }
}

/// An ELF executable.
pub struct Elf<'a> {
    data: &'a [u8],
}

impl<'a> Elf<'a> {
    #[verifier::type_invariant]
    spec fn has_header(self) -> bool {
        self.data@.len() >= 64
    }

    /// The bytes of the file.
    pub closed spec fn bytes(&self) -> Seq<u8> {
        self.data@
    }

    /// The executable in the bytes `data`.  Refused where the bytes are
    /// fewer than a header, where they do not start as an ELF file does, and
    /// where the file is not one of 64 bits.
    pub fn from(data: &'a [u8]) -> (result: Result<Elf<'a>, Error>)
        ensures
            result.is_ok() <==> Elf::from_spec(data@).is_ok(),
            result matches Err(e) ==> Elf::from_spec(data@) == Err::<(), Error>(e),
            result matches Ok(elf) ==> elf.bytes() == data@,
    {
        if data.len() < SIZEOF_EHDR {
            Err(Error::NotEnoughData)
        } else if data[0] != 0x7f || data[1] != 0x45 || data[2] != 0x4c || data[3] != 0x46 {
            Err(Error::InvalidMagic)
        } else if data[EI_CLASS] != ELFCLASS {
            Err(Error::InvalidArchitecture)
        } else {
            Ok(Elf { data })
        }
    }

    /// The bytes of the file.
    pub fn data(&self) -> (data: &'a [u8])
        ensures
            data@ == self.bytes(),
            data@.len() >= 64,
    {
        proof {
            use_type_invariant(self);
        }
        self.data
    }

    /// The address at which the program starts.
    pub fn entry(&self) -> (entry: u64)
        ensures
            entry == u64_at(self.bytes(), 24),
    {
        read_u64(self.data(), 24)
    }

    /// The number of segments.
    pub fn segment_count(&self) -> (count: usize)
        ensures
            count == u16_at(self.bytes(), 56),
    {
        read_u16(self.data(), 56) as usize
    }

    /// The number of sections.
    pub fn section_count(&self) -> (count: usize)
        ensures
            count == u16_at(self.bytes(), 60),
    {
        read_u16(self.data(), 60) as usize
    }

    /// Where the part with the index `index` lies in the file, in a table at
    /// `table` whose parts are `entry_size` bytes apart; `None` where the
    /// `size` bytes of the part do not lie within the file.
    fn part(&self, table: u64, entry_size: u16, index: usize, size: usize) -> (at: Option<usize>)
        requires
            index <= 0xffff,
            size <= 64,
        ensures
            at.is_some() <==> part_at(
                self.bytes().len() as int,
                table,
                entry_size,
                index as int,
                size as int,
            ).is_some(),
            at matches Some(a) ==> Some(a as int) == part_at(
                self.bytes().len() as int,
                table,
                entry_size,
                index as int,
                size as int,
            ) && a + size <= self.bytes().len(),
    {
        let length = self.data().len() as u128;
        assert(index * entry_size <= 0xffff * 0xffff) by (nonlinear_arith)
            requires
                index <= 0xffff,
                entry_size <= 0xffff,
        ;
        let start = table as u128 + (index as u128) * (entry_size as u128);
        if start + size as u128 <= length {
            Some(start as usize)
        } else {
            None
        }
    }

    /// The header of the segment with the index `index`; `None` where the
    /// file has no such segment, or where its header does not lie within the
    /// file.
    pub fn segment(&self, index: usize) -> (header: Option<ProgramHeader>)
        ensures
            header == (if index < u16_at(self.bytes(), 56) {
                match part_at(
                    self.bytes().len() as int,
                    u64_at(self.bytes(), 32),
                    u16_at(self.bytes(), 54),
                    index as int,
                    56,
                ) {
                    Some(at) => Some(program_header_at(self.bytes(), at)),
                    None => None,
                }
            } else {
                None
            }),
    {
        let data = self.data();
        if index >= self.segment_count() {
            return None;
        }
        let at = match self.part(read_u64(data, 32), read_u16(data, 54), index, SIZEOF_PHDR) {
            Some(at) => at,
            None => {
                return None;
            },
        };
        let length = data.len();
        Some(
            ProgramHeader {
                p_type: read_u32(data, at),
                p_flags: read_u32(data, at + 4),
                p_offset: read_u64(data, at + 8),
                p_vaddr: read_u64(data, at + 16),
                p_paddr: read_u64(data, at + 24),
                p_filesz: read_u64(data, at + 32),
                p_memsz: read_u64(data, at + 40),
                p_align: read_u64(data, at + 48),
            },
        )
    }

    /// The header of the section with the index `index`, where the file
    /// has such a section and its header and its bytes lie within the file.
    pub open spec fn section_header_of(&self, index: int) -> Option<SectionHeader> {
        section_header_in(self.bytes(), index)
    }

    /// Whether the bytes `data` are taken for an executable, and why not
    /// where they are not.
    pub open spec fn from_spec(data: Seq<u8>) -> Result<(), Error> {
        if data.len() < 64 {
            Err(Error::NotEnoughData)
        } else if !has_magic(data) {
            Err(Error::InvalidMagic)
        } else if data[4] != ELFCLASS {
            Err(Error::InvalidArchitecture)
        } else {
            Ok(())
        }
    }

    /// The section with the index `index`; `None` where the file has no
    /// such section, or where its header or its bytes do not lie within the
    /// file.
    pub fn section(&self, index: usize) -> (section: Option<Section<'a>>)
        ensures
            section.is_some() <==> self.section_header_of(index as int).is_some(),
            section matches Some(s) ==> Some(s.header()) == self.section_header_of(index as int)
                && s.bytes() == section_bytes(self.bytes(), s.header()),
    {
        let data = self.data();
        if index >= self.section_count() {
            return None;
        }
        let at = match self.part(read_u64(data, 40), read_u16(data, 58), index, SIZEOF_SHDR) {
            Some(at) => at,
            None => {
                return None;
            },
        };
        Section::new(data, SectionHeader::read(data, at))
    }

    /// The string table of the file: the first section that holds strings.
    /// The empty table where the file has none.
    pub fn strtab(&self) -> (table: Strtab<'a>)
        ensures
            table.delim() == 0,
            table.bytes() == strings_from(*self, 0),
    {
        let count = self.section_count();
        let mut index: usize = 0;
        while index < count
            invariant
                index <= count,
                count == u16_at(self.bytes(), 60),
                strings_from(*self, 0) == strings_from(*self, index as int),
            decreases count - index,
        {
            if let Some(section) = self.section(index) {
                if section.sh_type() == SHT_STRTAB {
                    return Strtab::from_raw(section.data(), 0x0);
                }
            }
            index += 1;
        }
        Strtab::default()
    }

    /// The string table with the names of the sections, which the header of
    /// the file names.  The empty table where that section is not there.
    pub fn shdr_strtab(&self) -> (table: Strtab<'a>)
        ensures
            table.delim() == 0,
            table.bytes() == match self.section_header_of(u16_at(self.bytes(), 62) as int) {
                Some(header) => section_bytes(self.bytes(), header),
                None => Seq::<u8>::empty(),
            },
    {
        let strtab_idx = read_u16(self.data(), 62) as usize;
        match self.section(strtab_idx) {
            Some(section) => Strtab::from_raw(section.data(), 0x0),
            None => Strtab::default(),
        }
    }

    /// The symbol with the index `index` in the symbol table that is the
    /// section with the index `table`; `None` where there is no such
    /// section, or where the section holds fewer symbols.
    pub fn symbol(&self, table: usize, index: usize) -> (symbol: Option<Symbol>)
        ensures
            symbol.is_some() <==> (self.section_header_of(table as int).is_some() && index
                < self.section_header_of(table as int).unwrap().sh_size / 24),
            symbol matches Some(s) ==> s.is_at(
                self.bytes(),
                self.section_header_of(table as int).unwrap(),
                self.section_header_of(table as int).unwrap().sh_offset + index * 24,
            ),
    {
        match self.section(table) {
            Some(symtab) => {
                if index < symtab.entries_count(SIZEOF_SYM) {
                    let header = symtab.header_copy();
                    let data = symtab.data();
                    let length = data.len();
                    assert(index * 24 + 24 <= length) by (nonlinear_arith)
                        requires
                            index < header.sh_size as int / 24,
                            length == header.sh_size,
                    ;
                    let at = index * SIZEOF_SYM;
                    proof {
                        lemma_part_of_part(
                            self.bytes(),
                            header.sh_offset as int,
                            header.sh_size as int,
                            at as int,
                        );
                    }
                    Some(Symbol::read(header, data, at))
                } else {
                    None
                }
            },
            None => None,
        }
    }

    /// The relocations of the file: those of each section of relocations, in
    /// the order of the sections.  Each 16 bytes of such a section are read
    /// as a relocation without addend, whether the section holds addends or
    /// not.
    pub fn shdr_relocs(&self) -> (relocs: Vec<Reloc>)
        ensures
            relocs@ == relocs_upto(*self, u16_at(self.bytes(), 60) as int),
    {
        let count = self.section_count();
        let mut relocs: Vec<Reloc> = Vec::new();
        let mut index: usize = 0;
        while index < count
            invariant
                index <= count,
                count == u16_at(self.bytes(), 60),
                relocs@ == relocs_upto(*self, index as int),
            decreases count - index,
        {
            if let Some(section) = self.section(index) {
                let kind = section.sh_type();
                if kind == SHT_REL || kind == SHT_RELA {
                    let data = section.data();
                    let length = data.len();
                    let entries = section.entries_count(SIZEOF_REL);
                    let ghost before = relocs@;
                    let mut k: usize = 0;
                    while k < entries
                        invariant
                            k <= entries,
                            entries * 16 <= data@.len(),
                            data@.len() == length,
                            relocs@ == before + relocs_in(data@).take(k as int),
                            entries == relocs_in(data@).len(),
                        decreases entries - k,
                    {
                        let at = k * SIZEOF_REL;
                        let info = read_u64(data, at + 8);
                        relocs.push(
                            Reloc {
                                r_offset: read_u64(data, at),
                                r_sym: (info / 0x1_0000_0000) as u32,
                                r_type: (info % 0x1_0000_0000) as u32,
                            },
                        );
                        assert(relocs@ =~= before + relocs_in(data@).take(k + 1));
                        k += 1;
                    }
                    assert(relocs_in(data@).take(k as int) =~= relocs_in(data@));
                }
            }
            index += 1;
        }
        relocs
    }
}

/// The bytes of the first section of `elf` with an index of `index` or
/// more that holds strings; none where there is no such section.
pub open spec fn strings_from(elf: Elf, index: int) -> Seq<u8>
    decreases u16_at(elf.bytes(), 60) - index,
{
    if index < 0 || index >= u16_at(elf.bytes(), 60) {
        Seq::empty()
    } else {
        match elf.section_header_of(index) {
            Some(header) => if header.sh_type == SHT_STRTAB {
                section_bytes(elf.bytes(), header)
            } else {
                strings_from(elf, index + 1)
            },
            None => strings_from(elf, index + 1),
        }
    }
}

/// The bytes of the section with the header `header` in the file with the
/// bytes `file`.
pub open spec fn section_bytes(file: Seq<u8>, header: SectionHeader) -> Seq<u8> {
    file.subrange(header.sh_offset as int, header.sh_offset + header.sh_size)
}

/// A symbol read from the bytes of a section is the symbol at that place in
/// the file.
pub proof fn lemma_part_of_part(file: Seq<u8>, start: int, size: int, at: int)
    requires
        0 <= start,
        0 <= at,
        at + 24 <= size,
        start + size <= file.len(),
    ensures
        crate::elf::symbol::sym_at(file.subrange(start, start + size), at)
            == crate::elf::symbol::sym_at(file, start + at),
{
    let part = file.subrange(start, start + size);
    assert(part.subrange(at, at + 4) =~= file.subrange(start + at, start + at + 4));
    assert(part.subrange(at + 6, at + 6 + 2) =~= file.subrange(start + at + 6, start + at + 6 + 2));
    assert(part.subrange(at + 8, at + 8 + 8) =~= file.subrange(start + at + 8, start + at + 8 + 8));
    assert(part.subrange(at + 16, at + 16 + 8) =~= file.subrange(
        start + at + 16,
        start + at + 16 + 8,
    ));
}

/// The relocations without addends in the bytes `data`: one for each 16
/// bytes.
pub open spec fn relocs_in(data: Seq<u8>) -> Seq<Reloc> {
    Seq::new((data.len() / 16) as nat, |k: int| reloc_at(data, k * 16))
}

/// The relocations of the sections of `elf` with an index below `count`.
pub open spec fn relocs_upto(elf: Elf, count: int) -> Seq<Reloc>
    decreases count,
{
    if count <= 0 {
        Seq::empty()
    } else {
        let rest = relocs_upto(elf, count - 1);
        match elf.section_header_of(count - 1) {
            Some(header) => if header.sh_type == SHT_REL || header.sh_type == SHT_RELA {
                rest + relocs_in(section_bytes(elf.bytes(), header))
            } else {
                rest
            },
            None => rest,
        }
    }
}

} // verus!
