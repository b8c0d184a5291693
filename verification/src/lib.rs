//! Boot-time physical-memory discovery for a minimal kernel.
//!
//! The library parses the two boot descriptors a bootloader may hand over —
//! a flattened device tree or a Multiboot information block — enumerates the
//! physical memory they report, subtracts known-occupied footprints, and
//! validates the result into a sorted, non-overlapping memory map that the
//! rest of a kernel can trust.

pub mod aarch64;
pub mod bytes;
pub mod device_tree;
pub mod klog;
pub mod memory;
pub mod multiboot;
pub mod path;
pub mod x86_64;

use vstd::prelude::*;

verus! {

/// Why boot-time memory discovery failed.
///
/// Every variant is terminal for a boot: there is no recovery layer above
/// this subsystem, so a caller is expected to halt after reporting it.
#[derive(Clone, Copy, Debug, PartialEq, Eq, Structural)]
pub enum BootError {
    /// A descriptor's magic number did not match its protocol.
    BadMagic,
    /// A Multiboot information block does not advertise a memory map.
    NoMemoryMap,
    /// A device-tree structure block holds an unrecognized token value.
    BadToken,
    /// A read would have run past the end of the descriptor bytes.
    Truncated,
    /// A device-tree memory property value is not a whole number of
    /// address/size pairs.
    BadRegionsValue,
    /// Shrinking a raw region by an occupied footprint would overflow
    /// or underflow its address or size.
    RegionArithmetic,
    /// The reconciled regions are unsorted or overlapping.
    UnsortedRegions,
    /// More regions were discovered than the configured maximum.
    TooManyRegions,
    /// The memory map store was initialized a second time.
    AlreadyInitialized,
}

} // verus!
