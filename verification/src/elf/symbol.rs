//! The symbols of an ELF executable.

use vstd::prelude::*;
use crate::elf::Elf;
use crate::elf::Error;
use crate::elf::read_u16;
use crate::elf::read_u32;
use crate::elf::read_u64;
use crate::elf::section::SectionHeader;
use crate::elf::strtab::Strtab;
use crate::elf::u16_at;
use crate::elf::u32_at;
use crate::elf::u64_at;

verus! {

/// The section index of a symbol that is defined nowhere in the file.
pub const SHN_UNDEF: u16 = 0;

/// The section index of a symbol whose value is an address as it stands.
pub const SHN_ABS: u16 = 0xfff1;

/// The binding of a symbol that is seen from other files.
pub const STB_GLOBAL: u8 = 1;

/// The binding of a symbol that gives way to a global one of its name.
pub const STB_WEAK: u8 = 2;

/// The type of a symbol that names a function.
pub const STT_FUNC: u8 = 2;

/// A symbol as it lies in a symbol table.
#[derive(Debug, Clone, Copy, PartialEq, Eq, Structural)]
pub struct Sym {
    /// Where the name of the symbol lies in the string table.
    pub st_name: u32,
    /// The binding of the symbol in the upper four bits, its type in the
    /// lower four.
    pub st_info: u8,
    pub st_other: u8,
    /// The index of the section that the symbol belongs to.
    pub st_shndx: u16,
    pub st_value: u64,
    pub st_size: u64,
}

/// The symbol that lies at `at` in `data`.
pub open spec fn sym_at(data: Seq<u8>, at: int) -> Sym {
    Sym {
        st_name: u32_at(data, at),
        st_info: data[at + 4],
        st_other: data[at + 5],
        st_shndx: u16_at(data, at + 6),
        st_value: u64_at(data, at + 8),
        st_size: u64_at(data, at + 16),
    }
}

/// What the value of the symbol `sym` is in the file with the bytes `file`:
/// zero for a weak symbol that is defined nowhere; the value as it stands
/// for a symbol with an address of its own; and else the place in the file
/// that lies as many bytes into the section of the symbol as the value
/// says.  `section` is the header of that section, where the section is
/// there.
pub open spec fn value_of(sym: Sym, section: Option<SectionHeader>) -> Result<u64, Error> {
    if sym.st_shndx == SHN_UNDEF {
        if (sym.st_info / 16) % 4 >= 2 {
            Ok(0u64)
        } else {
            Err(Error::UndefinedSymbol(sym.st_name))
        }
    } else if sym.st_shndx == SHN_ABS {
        Ok(sym.st_value)
    } else {
        match section {
            Some(header) => if header.sh_offset + sym.st_value <= u64::MAX {
                Ok((header.sh_offset + sym.st_value) as u64)
            } else {
                Err(Error::Malformed)
            },
            None => Err(Error::Malformed),
        }
    }
}

/// A symbol, with the header of the symbol table that it lies in.
#[derive(Debug, Clone, Copy, PartialEq, Eq, Structural)]
pub struct Symbol {
    symtab: SectionHeader,
    sym: Sym,
}

impl Symbol {
    /// The symbol as it lies in the symbol table.
    pub closed spec fn sym(&self) -> Sym {
        self.sym
    }

    /// The header of the symbol table that the symbol lies in.
    pub closed spec fn symtab(&self) -> SectionHeader {
        self.symtab
    }

    /// Whether this is the symbol that lies at `at` in `file`, in the symbol
    /// table with the header `symtab`.
    pub open spec fn is_at(&self, file: Seq<u8>, symtab: SectionHeader, at: int) -> bool {
        self.symtab() == symtab && self.sym() == sym_at(file, at)
    }

    /// The symbol that lies at `at` in `data`, the bytes of the symbol table
    /// with the header `symtab`.
    pub fn read(symtab: SectionHeader, data: &[u8], at: usize) -> (symbol: Symbol)
        requires
            at + 24 <= data@.len(),
        ensures
            symbol.symtab() == symtab,
            symbol.sym() == sym_at(data@, at as int),
    {
        let length = data.len();
        Symbol {
            symtab,
            sym: Sym {
                st_name: read_u32(data, at),
                st_info: data[at + 4],
                st_other: data[at + 5],
                st_shndx: read_u16(data, at + 6),
                st_value: read_u64(data, at + 8),
                st_size: read_u64(data, at + 16),
            },
        }
    }

    /// The value of the symbol in the file `elf`.
    pub fn value(&self, elf: &Elf) -> (result: Result<u64, Error>)
        ensures
            result == value_of(self.sym(), elf.section_header_of(self.sym().st_shndx as int)),
    {
        if self.st_shndx() == SHN_UNDEF as usize {
            // External symbol
            let bind = self.st_bind();
            assert((bind & 2 != 0) == (bind % 4 >= 2)) by (bit_vector);
            if bind & STB_WEAK != 0 {
                Ok(0)
            } else {
                Err(Error::UndefinedSymbol(self.sym.st_name))
            }
        } else if self.st_shndx() == SHN_ABS as usize {
            // Absolute symbol
            Ok(self.st_value())
        } else {
            // Internally defined symbol
            match elf.section(self.st_shndx()) {
                Some(target_section) => match target_section.offset(self.st_value()) {
                    Some(place) => Ok(place),
                    None => Err(Error::Malformed),
                },
                None => Err(Error::Malformed),
            }
        }
    }

    /// The name of the symbol: the name at the place that the symbol names,
    /// in the string table that goes with its symbol table.  Refused where
    /// that string table is not there; `None` where the name is no text.
    pub fn st_name<'a>(&self, elf: &Elf<'a>) -> (result: Result<Option<&'a str>, Error>)
        ensures
            result.is_ok() <==> elf.section_header_of(self.symtab().sh_link as int).is_some(),
            result matches Ok(name) ==> (name.is_some() <==> vstd::utf8::valid_utf8(
                crate::elf::strtab::name_at(
                    crate::elf::section_bytes(
                        elf.bytes(),
                        elf.section_header_of(self.symtab().sh_link as int).unwrap(),
                    ),
                    0,
                    self.sym().st_name as int,
                ),
            )),
    {
        match elf.section(self.symtab.sh_link as usize) {
            Some(strtab_section) => {
                let strtab = Strtab::from_raw(strtab_section.data(), 0x0);
                Ok(strtab.get(self.sym.st_name as usize))
            },
            None => Err(Error::Malformed),
        }
    }

    fn st_info(&self) -> (value: u8)
        ensures
            value == self.sym().st_info,
    {
        self.sym.st_info
    }

    fn st_shndx(&self) -> (value: usize)
        ensures
            value == self.sym().st_shndx,
    {
        self.sym.st_shndx as usize
    }

    fn st_value(&self) -> (value: u64)
        ensures
            value == self.sym().st_value,
    {
        self.sym.st_value
    }

    /// The binding of the symbol: the upper four bits of its info.
    fn st_bind(&self) -> (value: u8)
        ensures
            value == self.sym().st_info / 16,
    {
        let info = self.st_info();
        assert(info >> 4 == info / 16) by (bit_vector);
        info >> 4
    }

    /// The type of the symbol: the lower four bits of its info.
    fn st_type(&self) -> (value: u8)
        ensures
            value == self.sym().st_info % 16,
    {
        let info = self.st_info();
        assert(info & 0xf == info % 16) by (bit_vector);
        info & 0xf
    }

    /// Whether the symbol is global or weak and has the value zero: it is
    /// then taken from another file.
    pub fn is_import(&self) -> (import: bool)
        ensures
            import == ((self.sym().st_info / 16 == STB_GLOBAL || self.sym().st_info / 16
                == STB_WEAK) && self.sym().st_value == 0),
    {
        let binding = self.st_bind();
        (binding == STB_GLOBAL || binding == STB_WEAK) && self.st_value() == 0
    }

    /// Whether the symbol names a function.
    pub fn is_function(&self) -> (function: bool)
        ensures
            function == (self.sym().st_info % 16 == STT_FUNC),
    {
        self.st_type() == STT_FUNC
    }
}

} // verus!
