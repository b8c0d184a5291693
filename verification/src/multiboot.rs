//! Multiboot descriptor parsing: validation of the bootloader handoff and
//! the lazy, variable-stride iterator over the info block's memory map.

use vstd::prelude::*;
use crate::bytes::{le_u32_at, le_u64_at, read_le_u32, read_le_u64};
use crate::BootError;

verus! {

/// The magic number a Multiboot kernel header carries.
pub const HEADER_MAGIC: u32 = 0x1BADB002;

/// Header flag asking the bootloader to pass memory information.
pub const HEADER_MEMORY_INFO: u32 = 0x00000002;

/// The magic value the bootloader leaves in a register on entry.
pub const BOOTLOADER_MAGIC: u32 = 0x2BADB002;

/// Info-block flag bit: a full memory map is present.
pub const INFO_MEMORY_MAP: u32 = 0x00000040;

/// The memory-map entry kind that marks memory as available.
pub const MEM_KIND_AVAILABLE: u32 = 1;

/// Byte offset of `flags` in the info block.
pub const INFO_FLAGS_OFFSET: usize = 0;

/// Byte offset of `mmap_length` in the info block.
pub const INFO_MMAP_LENGTH_OFFSET: usize = 44;

/// Byte offset of `mmap_addr` in the info block.
pub const INFO_MMAP_ADDR_OFFSET: usize = 48;

/// The least info-block prefix holding every field this library reads.
pub const INFO_MIN_LEN: usize = 52;

/// The checksum a Multiboot kernel header must carry: header magic, flags
/// and checksum sum to zero modulo 2^32.
pub fn header_checksum() -> (r: u32)
    ensures
        (HEADER_MAGIC as int + HEADER_MEMORY_INFO as int + r as int) % 0x1_0000_0000 == 0,
{
    let s = (HEADER_MAGIC as u64) + (HEADER_MEMORY_INFO as u64);
    (0x1_0000_0000u64 - s) as u32
}

/// A validated view of the Multiboot information block: the bootloader magic
/// matched and the block advertises a memory map.
#[derive(Clone, Copy, Debug, PartialEq, Eq, Structural)]
pub struct MultibootInfo {
    /// The info block's feature flags.
    pub flags: u32,
    /// Total byte length of the memory-map buffer.
    pub mmap_length: u32,
    /// Physical address of the memory-map buffer.
    pub mmap_addr: u32,
}

/// Validates the Multiboot handoff: the register magic must be the
/// bootloader's, and the info block must advertise a memory map.
///
/// `info` holds the raw info-block bytes. Fails with `BadMagic` on a wrong
/// register magic, `Truncated` when the block cannot hold the fields read,
/// and `NoMemoryMap` when the memory-map flag is clear.
pub fn init(magic: u32, info: &[u8]) -> (r: Result<MultibootInfo, BootError>)
    ensures
        r is Ok <==> magic == BOOTLOADER_MAGIC && info@.len() >= INFO_MIN_LEN && le_u32_at(
            info@,
            INFO_FLAGS_OFFSET as int,
        ) & INFO_MEMORY_MAP != 0,
        r matches Ok(mi) ==> {
            &&& mi.flags == le_u32_at(info@, INFO_FLAGS_OFFSET as int)
            &&& mi.mmap_length == le_u32_at(info@, INFO_MMAP_LENGTH_OFFSET as int)
            &&& mi.mmap_addr == le_u32_at(info@, INFO_MMAP_ADDR_OFFSET as int)
        },
        magic != BOOTLOADER_MAGIC ==> r == Err::<MultibootInfo, BootError>(BootError::BadMagic),
        magic == BOOTLOADER_MAGIC && info@.len() < INFO_MIN_LEN ==> r == Err::<
            MultibootInfo,
            BootError,
        >(BootError::Truncated),
        magic == BOOTLOADER_MAGIC && info@.len() >= INFO_MIN_LEN && le_u32_at(
            info@,
            INFO_FLAGS_OFFSET as int,
        ) & INFO_MEMORY_MAP == 0 ==> r == Err::<MultibootInfo, BootError>(BootError::NoMemoryMap),
{
    if magic != BOOTLOADER_MAGIC {
        return Err(BootError::BadMagic);
    }
    if info.len() < INFO_MIN_LEN {
        return Err(BootError::Truncated);
    }
    let flags = read_le_u32(info, INFO_FLAGS_OFFSET);
    if flags & INFO_MEMORY_MAP == 0 {
        return Err(BootError::NoMemoryMap);
    }
    let mmap_length = read_le_u32(info, INFO_MMAP_LENGTH_OFFSET);
    let mmap_addr = read_le_u32(info, INFO_MMAP_ADDR_OFFSET);
    Ok(MultibootInfo { flags, mmap_length, mmap_addr })
}

/// One raw Multiboot memory-map record: a self-describing entry size, a base
/// address, a length and a region kind, all little-endian.
#[derive(Clone, Copy, Debug, PartialEq, Eq, Structural)]
pub struct MemoryRegion {
    /// The entry's self-declared payload size: the next entry starts
    /// `4 + size` bytes after this one.
    pub size: u32,
    /// First physical address of the range.
    pub base_addr: u64,
    /// Length of the range in bytes.
    pub length: u64,
    /// What the range holds; only [`MEM_KIND_AVAILABLE`] is usable.
    pub kind: u32,
}

/// What one iteration step at byte offset `off` of the memory-map buffer
/// produces: an entry with the offset the cursor moves to (the declared
/// stride, clamped to the end of the buffer), the end of the map, or a
/// truncated record.
pub enum MapStep {
    Entry(u32, u64, u64, u32, int),
    Done,
    Short,
}

/// Decodes the memory-map record at `off`: iteration ends exactly at the end
/// of the buffer; a record must hold its fixed fields; the next record
/// starts `4 + size` bytes further, `size` being the record's own leading
/// field.
pub open spec fn mmap_step(m: Seq<u8>, off: int) -> MapStep {
    if off < 0 {
        MapStep::Short
    } else if off >= m.len() {
        MapStep::Done
    } else if off + 24 > m.len() {
        MapStep::Short
    } else {
        let size = le_u32_at(m, off);
        MapStep::Entry(
            size,
            le_u64_at(m, off + 4),
            le_u64_at(m, off + 12),
            le_u32_at(m, off + 20),
            if off + 4 + size <= m.len() {
                off + 4 + size
            } else {
                m.len() as int
            },
        )
    }
}

/// A lazy cursor over the raw memory-map buffer, advancing by each entry's
/// self-declared stride.
#[derive(Clone, Copy)]
pub struct MemoryMapIter<'a> {
    /// The memory-map buffer: exactly the `mmap_length` bytes at
    /// `mmap_addr`.
    pub mmap: &'a [u8],
    /// Current byte offset into the buffer.
    pub off: usize,
}

impl<'a> MemoryMapIter<'a> {
    /// The cursor never sits past the end of the buffer.
    pub open spec fn wf(self) -> bool {
        self.off <= self.mmap@.len()
    }

    /// A cursor at the start of the memory-map buffer.
    pub fn new(mmap: &'a [u8]) -> (r: MemoryMapIter<'a>)
        ensures
            r.wf(),
            r.mmap@ == mmap@,
            r.off == 0,
    {
        MemoryMapIter { mmap, off: 0 }
    }

    /// Decodes the record under the cursor and advances by its stride.
    ///
    /// Returns `Ok(None)` exactly when the cursor has reached the end of the
    /// buffer, and fails when a record's fixed fields would run past it.
    pub fn next(&mut self) -> (r: Result<Option<MemoryRegion>, BootError>)
        requires
            old(self).wf(),
        ensures
            final(self).wf(),
            final(self).mmap@ == old(self).mmap@,
            match mmap_step(old(self).mmap@, old(self).off as int) {
                MapStep::Entry(size, base_addr, length, kind, n) => {
                    &&& r matches Ok(Some(reg))
                    &&& reg.size == size
                    &&& reg.base_addr == base_addr
                    &&& reg.length == length
                    &&& reg.kind == kind
                    &&& final(self).off == n
                },
                MapStep::Done => {
                    &&& r == Ok::<Option<MemoryRegion>, BootError>(None)
                    &&& final(self).off == old(self).off
                },
                MapStep::Short => {
                    &&& r == Err::<Option<MemoryRegion>, BootError>(BootError::Truncated)
                    &&& final(self).off == old(self).off
                },
            },
    {
        let m = self.mmap;
        let len = m.len();
        let off = self.off;
        if off >= len {
            return Ok(None);
        }
        if len - off < 24 {
            return Err(BootError::Truncated);
        }
        let size = read_le_u32(m, off);
        let base_addr = read_le_u64(m, off + 4);
        let length = read_le_u64(m, off + 12);
        let kind = read_le_u32(m, off + 20);
        let rem = len - off;
        if (size as u64) + 4 <= (rem as u64) {
            self.off = off + 4 + (size as usize);
        } else {
            self.off = len;
        }
        Ok(Some(MemoryRegion { size, base_addr, length, kind }))
    }
}

} // verus!
