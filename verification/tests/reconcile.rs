//! Reconciliation tests: footprint subtraction, discovery order, capacity,
//! and the end-to-end boot paths into the memory map store.

use bootmem::memory::{MemoryMap, MemoryRegion, MEMORY_REGIONS_MAX};
use bootmem::multiboot::MEM_KIND_AVAILABLE;
use bootmem::{aarch64, device_tree, x86_64, BootError};

fn be32(v: u32) -> [u8; 4] {
    v.to_be_bytes()
}

fn tok_begin(buf: &mut Vec<u8>, name: &[u8]) {
    buf.extend_from_slice(&be32(1));
    buf.extend_from_slice(name);
    buf.push(0);
    while buf.len() % 4 != 0 {
        buf.push(0);
    }
}

fn tok_end(buf: &mut Vec<u8>) {
    buf.extend_from_slice(&be32(2));
}

fn tok_prop(buf: &mut Vec<u8>, noff: u32, value: &[u8]) {
    buf.extend_from_slice(&be32(3));
    buf.extend_from_slice(&be32(value.len() as u32));
    buf.extend_from_slice(&be32(noff));
    buf.extend_from_slice(value);
    while buf.len() % 4 != 0 {
        buf.push(0);
    }
}

fn tok_end_block(buf: &mut Vec<u8>) {
    buf.extend_from_slice(&be32(9));
}

fn build_fdt(struct_block: &[u8], strings: &[u8], total_size: u32) -> Vec<u8> {
    let rsv = [0u8; 16];
    let off_rsv: u32 = 40;
    let off_struct = off_rsv + rsv.len() as u32;
    let off_strings = off_struct + struct_block.len() as u32;
    let mut blob = Vec::new();
    blob.extend_from_slice(&be32(0xD00DFEED));
    blob.extend_from_slice(&be32(total_size));
    blob.extend_from_slice(&be32(off_struct));
    blob.extend_from_slice(&be32(off_strings));
    blob.extend_from_slice(&be32(off_rsv));
    blob.extend_from_slice(&be32(17));
    blob.extend_from_slice(&be32(16));
    blob.extend_from_slice(&be32(0));
    blob.extend_from_slice(&be32(strings.len() as u32));
    blob.extend_from_slice(&be32(struct_block.len() as u32));
    blob.extend_from_slice(&rsv);
    blob.extend_from_slice(struct_block);
    blob.extend_from_slice(strings);
    blob
}

fn reg_pair(address: u64, size: u64) -> Vec<u8> {
    let mut v = Vec::new();
    v.extend_from_slice(&address.to_be_bytes());
    v.extend_from_slice(&size.to_be_bytes());
    v
}

/// A device tree whose single memory node reports the given regions.
fn memory_fdt(pairs: &[(u64, u64)], total_size: u32) -> Vec<u8> {
    let mut value = Vec::new();
    for &(a, s) in pairs {
        value.extend_from_slice(&reg_pair(a, s));
    }
    let mut sb = Vec::new();
    tok_begin(&mut sb, b"");
    tok_begin(&mut sb, b"memory@40000000");
    tok_prop(&mut sb, 0, &value);
    tok_end(&mut sb);
    tok_end(&mut sb);
    tok_end_block(&mut sb);
    build_fdt(&sb, b"reg\0", total_size)
}

fn push_entry(buf: &mut Vec<u8>, entry_size: u32, base: u64, length: u64, kind: u32) {
    buf.extend_from_slice(&entry_size.to_le_bytes());
    let start = buf.len();
    buf.extend_from_slice(&base.to_le_bytes());
    buf.extend_from_slice(&length.to_le_bytes());
    buf.extend_from_slice(&kind.to_le_bytes());
    while buf.len() < start + entry_size as usize {
        buf.push(0);
    }
}

#[test]
fn footprints_at_the_region_base_are_subtracted() {
    // A raw region at 0x40000000 of 0x10000 bytes, with the kernel occupying
    // {0x40000000, 0x2000} and the descriptor {0x40002000, 0x1000}, reduces
    // to {0x40003000, 0xD000}: the start advances by the combined footprint.
    let blob = memory_fdt(&[(0x4000_0000, 0x10000)], 0x1000);
    let fdt = device_tree::init(&blob, 0x4000_2000).unwrap();
    let kreg = MemoryRegion { address: 0x4000_0000, size: 0x2000 };

    let regions = aarch64::detect_memory(&fdt, kreg).unwrap();
    assert_eq!(regions.len(), 1);
    assert_eq!(regions[0], MemoryRegion { address: 0x4000_3000, size: 0xD000 });
}

#[test]
fn region_not_starting_at_a_footprint_passes_unchanged() {
    // The footprints sit inside the region, not at its base: the narrow
    // prefix-only policy leaves the region exactly as reported.
    let blob = memory_fdt(&[(0x4000_0000, 0x10000)], 0x1000);
    let fdt = device_tree::init(&blob, 0x4000_4000).unwrap();
    let kreg = MemoryRegion { address: 0x4000_8000, size: 0x2000 };

    let regions = aarch64::detect_memory(&fdt, kreg).unwrap();
    assert_eq!(regions.len(), 1);
    assert_eq!(regions[0], MemoryRegion { address: 0x4000_0000, size: 0x10000 });
}

#[test]
fn footprint_larger_than_the_region_is_fatal() {
    let blob = memory_fdt(&[(0x4000_0000, 0x1000)], 0x1000);
    let fdt = device_tree::init(&blob, 0x4000_0000).unwrap();
    let kreg = MemoryRegion { address: 0x5000_0000, size: 0x2000 };

    assert_eq!(
        aarch64::detect_memory(&fdt, kreg),
        Err(BootError::RegionArithmetic)
    );
}

#[test]
fn ragged_reg_value_is_fatal() {
    let mut sb = Vec::new();
    tok_begin(&mut sb, b"");
    tok_begin(&mut sb, b"memory@0");
    tok_prop(&mut sb, 0, &[0; 24]);
    tok_end(&mut sb);
    tok_end(&mut sb);
    tok_end_block(&mut sb);
    let blob = build_fdt(&sb, b"reg\0", 0);
    let fdt = device_tree::init(&blob, 0x9000_0000).unwrap();
    let kreg = MemoryRegion { address: 0x8000_0000, size: 0 };

    assert_eq!(
        aarch64::detect_memory(&fdt, kreg),
        Err(BootError::BadRegionsValue)
    );
}

#[test]
fn regions_keep_their_discovery_order() {
    let blob = memory_fdt(&[(0x8000_0000, 0x1000), (0x4000_0000, 0x1000)], 0x100);
    let fdt = device_tree::init(&blob, 0x9000_0000).unwrap();
    let kreg = MemoryRegion { address: 0xA000_0000, size: 0x100 };

    let regions = aarch64::detect_memory(&fdt, kreg).unwrap();
    assert_eq!(regions.len(), 2);
    assert_eq!(regions[0].address, 0x8000_0000);
    assert_eq!(regions[1].address, 0x4000_0000);
}

#[test]
fn device_tree_boot_path_freezes_the_store() {
    let blob = memory_fdt(&[(0x4000_0000, 0x10000)], 0x1000);
    let fdt = device_tree::init(&blob, 0x4000_2000).unwrap();
    let kreg = MemoryRegion { address: 0x4000_0000, size: 0x2000 };

    let mut store = MemoryMap::new();
    aarch64::init(&fdt, kreg, &mut store).unwrap();
    assert!(store.initialized());
    assert_eq!(store.available().len(), 1);
    assert_eq!(
        store.available()[0],
        MemoryRegion { address: 0x4000_3000, size: 0xD000 }
    );
}

#[test]
fn device_tree_boot_path_rejects_unsorted_discovery() {
    let blob = memory_fdt(&[(0x8000_0000, 0x1000), (0x4000_0000, 0x1000)], 0x100);
    let fdt = device_tree::init(&blob, 0x9000_0000).unwrap();
    let kreg = MemoryRegion { address: 0xA000_0000, size: 0x100 };

    let mut store = MemoryMap::new();
    assert_eq!(
        aarch64::init(&fdt, kreg, &mut store),
        Err(BootError::UnsortedRegions)
    );
    assert!(!store.initialized());
}

#[test]
fn available_entries_are_kept_and_others_dropped() {
    let mut mmap = Vec::new();
    push_entry(&mut mmap, 20, 0x0, 0x9F000, MEM_KIND_AVAILABLE);
    push_entry(&mut mmap, 20, 0x9F000, 0x1000, 2);
    push_entry(&mut mmap, 24, 0x10_0000, 0x3FF0_0000, MEM_KIND_AVAILABLE);
    let kreg = MemoryRegion { address: 0xF000_0000, size: 0x10000 };

    let regions = x86_64::detect_memory(&mmap, kreg).unwrap();
    assert_eq!(regions.len(), 2);
    assert_eq!(regions[0], MemoryRegion { address: 0x0, size: 0x9F000 });
    assert_eq!(regions[1], MemoryRegion { address: 0x10_0000, size: 0x3FF0_0000 });
}

#[test]
fn kernel_footprint_is_subtracted_on_the_multiboot_path() {
    let mut mmap = Vec::new();
    push_entry(&mut mmap, 20, 0x10_0000, 0x1000_0000, MEM_KIND_AVAILABLE);
    let kreg = MemoryRegion { address: 0x10_0000, size: 0x30_0000 };

    let regions = x86_64::detect_memory(&mmap, kreg).unwrap();
    assert_eq!(regions.len(), 1);
    assert_eq!(
        regions[0],
        MemoryRegion { address: 0x40_0000, size: 0x1000_0000 - 0x30_0000 }
    );
}

#[test]
fn multiboot_boot_path_freezes_the_store() {
    let mut mmap = Vec::new();
    push_entry(&mut mmap, 20, 0x0, 0x9F000, MEM_KIND_AVAILABLE);
    push_entry(&mut mmap, 20, 0x10_0000, 0x1000_0000, MEM_KIND_AVAILABLE);
    let kreg = MemoryRegion { address: 0x10_0000, size: 0x30_0000 };

    let mut store = MemoryMap::new();
    x86_64::init(&mmap, kreg, &mut store).unwrap();
    assert!(store.initialized());
    assert_eq!(store.available().len(), 2);
    assert_eq!(store.available()[0], MemoryRegion { address: 0x0, size: 0x9F000 });
    assert_eq!(
        store.available()[1],
        MemoryRegion { address: 0x40_0000, size: 0x1000_0000 - 0x30_0000 }
    );
}

#[test]
fn discovery_past_capacity_is_fatal() {
    let mut mmap = Vec::new();
    for i in 0..(MEMORY_REGIONS_MAX as u64 + 1) {
        push_entry(&mut mmap, 20, i * 0x10_0000, 0x1000, MEM_KIND_AVAILABLE);
    }
    let kreg = MemoryRegion { address: 0xF000_0000, size: 0x1000 };
    assert_eq!(
        x86_64::detect_memory(&mmap, kreg),
        Err(BootError::TooManyRegions)
    );
}
