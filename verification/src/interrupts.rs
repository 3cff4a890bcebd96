//! What the processor reports with a page fault.

use vstd::prelude::*;
use crate::memory::paging::ActivePageTable;
use crate::memory::paging::PagingError;
use crate::memory::paging::mapper::address_translation;

verus! {

/// The fault came from a page that is present: a permission was lacking.
pub const PROTECTION_VIOLATION: u64 = 0x1;

/// The fault came from a write.
pub const CAUSED_BY_WRITE: u64 = 0x2;

/// The fault came from code outside the kernel.
pub const USER_MODE: u64 = 0x4;

/// A reserved bit was set in an entry of a page table.
pub const MALFORMED_TABLE: u64 = 0x8;

/// The fault came from fetching an instruction.
pub const INSTRUCTION_FETCH: u64 = 0x10;

/// Every bit of the error code that has a meaning.
pub const ALL_CAUSES: u64 = 0x1f;

/// The error code of a page fault.
#[derive(Debug, Clone, Copy, PartialEq, Eq, Structural)]
pub struct PageFaultErrorCode {
    bits: u64,
}

impl PageFaultErrorCode {
    #[verifier::type_invariant]
    spec fn known(self) -> bool {
        self.bits & ALL_CAUSES == self.bits
    }

    /// The bits of the error code.
    pub closed spec fn value(&self) -> u64 {
        self.bits
    }

    /// The error code with the bits `bits`; `None` where a bit without
    /// meaning is set.
    pub fn from_bits(bits: u64) -> (code: Option<PageFaultErrorCode>)
        ensures
            code.is_some() <==> bits & ALL_CAUSES == bits,
            code matches Some(c) ==> c.value() == bits,
    {
        if bits & ALL_CAUSES == bits {
            Some(PageFaultErrorCode { bits })
        } else {
            None
        }
    }

    /// The bits of the error code.
    pub fn bits(&self) -> (bits: u64)
        ensures
            bits == self.value(),
            bits & ALL_CAUSES == bits,
    {
        proof {
            use_type_invariant(self);
        }
        self.bits
    }

    /// Whether the error code has every bit of `causes`.
    pub fn contains(&self, causes: u64) -> (all: bool)
        ensures
            all == (self.value() & causes == causes),
    {
        self.bits & causes == causes
    }
}

/// What is known of a page fault.
#[derive(Debug, Clone, Copy)]
pub struct PageFault {
    /// The address that was touched.
    pub address: u64,
    /// The error code, where it holds no bit without meaning.
    pub code: Option<PageFaultErrorCode>,
    /// What the address translates to in the address space in force.
    pub translation: Result<Option<u64>, PagingError>,
}

/// What is known of the page fault at `address` with the error code
/// `error_code`, for the report of the fault: the kernel does not recover
/// from a page fault.
pub fn page_fault(table: &ActivePageTable, address: u64, error_code: u64) -> (fault: PageFault)
    ensures
        fault.address == address,
        fault.code.is_some() <==> error_code & ALL_CAUSES == error_code,
        fault.code matches Some(c) ==> c.value() == error_code,
        fault.translation == address_translation(
            table.mapper.words(),
            table.mapper.root(),
            address,
        ),
{
    PageFault {
        address,
        code: PageFaultErrorCode::from_bits(error_code),
        translation: table.translate(address),
    }
}

} // verus!
