//! What the boot loader reports to the kernel, as plain values.

use vstd::prelude::*;
use crate::memory::frame_allocator::MemoryArea;
use crate::memory::paging::entry::ELF_SECTION_ALLOCATED;

verus! {

/// A section of the boot image.
#[derive(Debug, Clone, Copy, PartialEq, Eq, Structural)]
pub struct ElfSection {
    /// Virtual address at which the section lies while the kernel runs.
    pub addr: u64,
    /// Size of the section in bytes.
    pub size: u64,
    /// Attribute bits of the section.
    pub flags: u64,
}

impl ElfSection {
    /// Whether the section occupies memory while the kernel runs.
    pub open spec fn allocated(&self) -> bool {
        self.flags & ELF_SECTION_ALLOCATED != 0
    }

    /// Whether the section occupies memory while the kernel runs.
    pub fn is_allocated(&self) -> (allocated: bool)
        ensures
            allocated == self.allocated(),
    {
        self.flags & ELF_SECTION_ALLOCATED != 0
    }

    /// The address of the first byte of the section.
    pub fn start_address(&self) -> (address: u64)
        ensures
            address == self.addr,
    {
        self.addr
    }

    /// The address of the first byte after the section.
    pub fn end_address(&self) -> (address: u64)
        requires
            self.addr + self.size <= u64::MAX,
        ensures
            address == self.addr + self.size,
    {
        self.addr + self.size
    }
}

/// A module that the boot loader put into memory beside the kernel.
#[derive(Debug, Clone, Copy, PartialEq, Eq, Structural)]
pub struct ModuleTag {
    /// Physical address of the first byte of the module.
    pub start: u64,
    /// Physical address of the first byte after the module.
    pub end: u64,
}

/// The boot information.
pub struct BootInformation {
    /// Physical address of the first byte of the boot information.
    pub start_address: u64,
    /// Physical address of the first byte after the boot information.
    pub end_address: u64,
    /// The memory areas that are free, where the boot loader reports them.
    pub memory_areas: Option<Vec<MemoryArea>>,
    /// The sections of the boot image, where the boot loader reports them.
    pub elf_sections: Option<Vec<ElfSection>>,
    /// The modules.
    pub modules: Vec<ModuleTag>,
}

} // verus!
