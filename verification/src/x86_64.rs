//! Memory discovery for the Multiboot boot path: filters the raw memory map
//! down to available entries, shrinks one that begins at the kernel's own
//! footprint, and feeds the result to the memory map store.

use vstd::prelude::*;
use crate::memory::{MemoryMap, MemoryRegion, MEMORY_REGIONS_MAX};
use crate::multiboot::{mmap_step, MapStep, MemoryMapIter, MEM_KIND_AVAILABLE};
use crate::BootError;

verus! {

/// Shrinks an available region that begins exactly at the kernel image's own
/// address by advancing its start and reducing its size by the kernel's
/// footprint. Any other region passes through unchanged.
///
/// This deliberately narrow, address-prefix-only policy does not subtract
/// occupied ranges from the middle or end of a raw region.
pub open spec fn adjust_region(base: u64, length: u64, kreg: MemoryRegion) -> Result<
    MemoryRegion,
    BootError,
> {
    if base == kreg.address {
        if base + kreg.size <= u64::MAX && length >= kreg.size {
            Ok(MemoryRegion { address: (base + kreg.size) as u64, size: (length - kreg.size) as u64 })
        } else {
            Err(BootError::RegionArithmetic)
        }
    } else {
        Ok(MemoryRegion { address: base, size: length })
    }
}

/// The detection fold: walks the memory map from `off`, keeps entries of the
/// available kind, adjusts each through [`adjust_region`] and appends it to
/// `acc`, failing when the configured region capacity would be exceeded.
pub open spec fn mb_detect(
    m: Seq<u8>,
    off: int,
    kreg: MemoryRegion,
    acc: Seq<MemoryRegion>,
) -> Result<Seq<MemoryRegion>, BootError>
    decreases m.len() - off,
{
    match mmap_step(m, off) {
        MapStep::Done => Ok(acc),
        MapStep::Short => Err(BootError::Truncated),
        MapStep::Entry(_size, base, length, kind, n) => {
            if kind == MEM_KIND_AVAILABLE {
                match adjust_region(base, length, kreg) {
                    Ok(mr) => {
                        if acc.len() >= MEMORY_REGIONS_MAX {
                            Err(BootError::TooManyRegions)
                        } else {
                            mb_detect(m, n, kreg, acc.push(mr))
                        }
                    },
                    Err(e) => Err(e),
                }
            } else {
                mb_detect(m, n, kreg, acc)
            }
        },
    }
}

/// The final usable-region list for the memory map store: every available
/// entry of the raw memory map, shrunk by the kernel footprint where the
/// footprint begins the entry.
///
/// `mmap` is the raw memory-map buffer: exactly the `mmap_length` bytes at
/// the info block's `mmap_addr`. Output order follows the order of the map;
/// sorting is the store's responsibility. Fails on a truncated record, an
/// adjustment that would not fit, or more available regions than the
/// configured maximum.
#[verifier::loop_isolation(false)]
pub fn detect_memory(mmap: &[u8], kreg: MemoryRegion) -> (r: Result<Vec<MemoryRegion>, BootError>)
    ensures
        match mb_detect(mmap@, 0, kreg, Seq::empty()) {
            Ok(s) => r matches Ok(v) && v@ == s,
            Err(e) => r == Err::<Vec<MemoryRegion>, BootError>(e),
        },
{
    let mut it = MemoryMapIter::new(mmap);
    let mut out: Vec<MemoryRegion> = Vec::new();
    loop
        invariant
            it.wf(),
            it.mmap@ == mmap@,
            mb_detect(mmap@, it.off as int, kreg, out@) == mb_detect(mmap@, 0, kreg, Seq::empty()),
        decreases mmap@.len() - it.off,
    {
        match it.next() {
            Err(e) => {
                return Err(e);
            },
            Ok(None) => {
                return Ok(out);
            },
            Ok(Some(reg)) => {
                if reg.kind == MEM_KIND_AVAILABLE {
                    let mr: MemoryRegion;
                    if reg.base_addr == kreg.address {
                        if reg.base_addr > u64::MAX - kreg.size || reg.length < kreg.size {
                            return Err(BootError::RegionArithmetic);
                        }
                        mr = MemoryRegion {
                            address: reg.base_addr + kreg.size,
                            size: reg.length - kreg.size,
                        };
                    } else {
                        mr = MemoryRegion { address: reg.base_addr, size: reg.length };
                    }
                    if out.len() >= MEMORY_REGIONS_MAX {
                        return Err(BootError::TooManyRegions);
                    }
                    out.push(mr);
                }
            },
        }
    }
}

/// Runs the whole Multiboot boot path once: detects the usable regions and
/// freezes them in the store.
///
/// `kreg` is the running kernel image's own footprint, as
/// [`crate::memory::kernel_memory_region`] computes it.
pub fn init(mmap: &[u8], kreg: MemoryRegion, store: &mut MemoryMap) -> (r: Result<(), BootError>)
    requires
        old(store).wf(),
    ensures
        final(store).wf(),
        ({
            let det = mb_detect(mmap@, 0, kreg, Seq::empty());
            &&& det is Err ==> (r is Err && *final(store) == *old(store))
            &&& match det {
                Ok(s) => {
                    &&& (r is Ok <==> !old(store).is_init() && s.len() <= MEMORY_REGIONS_MAX
                        && crate::memory::regions_sorted(s))
                    &&& (r is Ok ==> final(store).is_init() && final(store).regions() == s)
                    &&& (r is Err ==> *final(store) == *old(store))
                },
                Err(_) => true,
            }
        }),
{
    match detect_memory(mmap, kreg) {
        Ok(regions) => store.init(regions.as_slice()),
        Err(e) => Err(e),
    }
}

} // verus!
