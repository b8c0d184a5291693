//! Memory map store tests: the sort/non-overlap invariant, the init-once
//! lifecycle, capacity, and the kernel footprint query.

use bootmem::memory::{kernel_memory_region, MemoryMap, MemoryRegion, MEMORY_REGIONS_MAX};
use bootmem::BootError;

#[test]
fn overlapping_regions_are_rejected() {
    let mut map = MemoryMap::new();
    let regions = [
        MemoryRegion { address: 0, size: 0x1000 },
        MemoryRegion { address: 0x500, size: 0x1000 },
    ];
    assert_eq!(map.init(&regions), Err(BootError::UnsortedRegions));
    assert!(!map.initialized());
    assert!(map.available().is_empty());
}

#[test]
fn adjacent_regions_are_accepted() {
    let mut map = MemoryMap::new();
    let regions = [
        MemoryRegion { address: 0, size: 0x1000 },
        MemoryRegion { address: 0x1000, size: 0x2000 },
    ];
    assert_eq!(map.init(&regions), Ok(()));
    assert!(map.initialized());
    assert_eq!(map.available().as_slice(), &regions[..]);
}

#[test]
fn unsorted_regions_are_rejected() {
    let mut map = MemoryMap::new();
    let regions = [
        MemoryRegion { address: 0x8000, size: 0x1000 },
        MemoryRegion { address: 0x1000, size: 0x1000 },
    ];
    assert_eq!(map.init(&regions), Err(BootError::UnsortedRegions));
}

#[test]
fn gaps_between_regions_are_accepted() {
    let mut map = MemoryMap::new();
    let regions = [
        MemoryRegion { address: 0x1000, size: 0x1000 },
        MemoryRegion { address: 0x8000, size: 0x1000 },
        MemoryRegion { address: 0x10000, size: 0x1000 },
    ];
    assert_eq!(map.init(&regions), Ok(()));
    assert_eq!(map.available().len(), 3);
}

#[test]
fn empty_and_single_region_maps_are_accepted() {
    let mut empty = MemoryMap::new();
    assert_eq!(empty.init(&[]), Ok(()));
    assert!(empty.available().is_empty());

    let mut single = MemoryMap::new();
    assert_eq!(single.init(&[MemoryRegion { address: 7, size: 9 }]), Ok(()));
    assert_eq!(single.available()[0], MemoryRegion { address: 7, size: 9 });
}

#[test]
fn second_initialization_is_rejected() {
    let mut map = MemoryMap::new();
    assert_eq!(map.init(&[MemoryRegion { address: 0, size: 1 }]), Ok(()));
    assert_eq!(
        map.init(&[MemoryRegion { address: 0x9000, size: 1 }]),
        Err(BootError::AlreadyInitialized)
    );
    // The first map is untouched.
    assert_eq!(map.available().len(), 1);
    assert_eq!(map.available()[0], MemoryRegion { address: 0, size: 1 });
}

#[test]
fn more_regions_than_capacity_are_rejected() {
    let mut map = MemoryMap::new();
    let mut regions = Vec::new();
    for i in 0..(MEMORY_REGIONS_MAX as u64 + 1) {
        regions.push(MemoryRegion { address: i * 0x1000, size: 0x1000 });
    }
    assert_eq!(map.init(&regions), Err(BootError::TooManyRegions));
    assert!(!map.initialized());

    // Exactly the maximum is still fine.
    regions.pop();
    assert_eq!(map.init(&regions), Ok(()));
    assert_eq!(map.available().len(), MEMORY_REGIONS_MAX);
}

#[test]
fn kernel_region_spans_the_boundary_addresses() {
    let reg = kernel_memory_region(0x0010_0000, 0x0034_5000);
    assert_eq!(reg.address, 0x0010_0000);
    assert_eq!(reg.size, 0x0024_5000);

    let empty = kernel_memory_region(0x8000, 0x8000);
    assert_eq!(empty.address, 0x8000);
    assert_eq!(empty.size, 0);
}
