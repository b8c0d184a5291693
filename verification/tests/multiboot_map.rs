//! Multiboot tests: handoff validation, the header checksum, and the
//! variable-stride iteration of the memory map.

use bootmem::multiboot::{
    self, MemoryMapIter, BOOTLOADER_MAGIC, HEADER_MAGIC, HEADER_MEMORY_INFO, INFO_MEMORY_MAP,
    INFO_MIN_LEN, MEM_KIND_AVAILABLE,
};
use bootmem::BootError;

fn build_info(flags: u32, mmap_length: u32, mmap_addr: u32) -> Vec<u8> {
    let mut info = vec![0u8; INFO_MIN_LEN];
    info[0..4].copy_from_slice(&flags.to_le_bytes());
    info[44..48].copy_from_slice(&mmap_length.to_le_bytes());
    info[48..52].copy_from_slice(&mmap_addr.to_le_bytes());
    info
}

fn push_entry(buf: &mut Vec<u8>, entry_size: u32, base: u64, length: u64, kind: u32) {
    buf.extend_from_slice(&entry_size.to_le_bytes());
    let start = buf.len();
    buf.extend_from_slice(&base.to_le_bytes());
    buf.extend_from_slice(&length.to_le_bytes());
    buf.extend_from_slice(&kind.to_le_bytes());
    while buf.len() < start + entry_size as usize {
        buf.push(0);
    }
}

#[test]
fn handoff_rejects_wrong_register_magic() {
    let info = build_info(INFO_MEMORY_MAP, 0, 0);
    assert!(matches!(
        multiboot::init(0xDEADBEEF, &info),
        Err(BootError::BadMagic)
    ));
}

#[test]
fn handoff_rejects_missing_memory_map_flag() {
    let info = build_info(0x0000_0025, 0, 0);
    assert!(matches!(
        multiboot::init(BOOTLOADER_MAGIC, &info),
        Err(BootError::NoMemoryMap)
    ));
}

#[test]
fn handoff_rejects_short_info_block() {
    let info = [0u8; 20];
    assert!(matches!(
        multiboot::init(BOOTLOADER_MAGIC, &info),
        Err(BootError::Truncated)
    ));
}

#[test]
fn handoff_reads_the_memory_map_fields() {
    let info = build_info(INFO_MEMORY_MAP | 1, 48, 0x9000);
    let mi = multiboot::init(BOOTLOADER_MAGIC, &info).unwrap();
    assert_eq!(mi.flags, INFO_MEMORY_MAP | 1);
    assert_eq!(mi.mmap_length, 48);
    assert_eq!(mi.mmap_addr, 0x9000);
}

#[test]
fn header_checksum_sums_to_zero() {
    let sum = HEADER_MAGIC
        .wrapping_add(HEADER_MEMORY_INFO)
        .wrapping_add(multiboot::header_checksum());
    assert_eq!(sum, 0);
}

#[test]
fn map_iteration_strides_by_declared_entry_size() {
    // Two entries with different self-declared sizes: the second starts
    // 4 + 20 bytes past the first, and iteration halts exactly at the end.
    let mut mmap = Vec::new();
    push_entry(&mut mmap, 20, 0x0, 0x9F000, MEM_KIND_AVAILABLE);
    push_entry(&mut mmap, 24, 0x100000, 0x3FF0_0000, 2);
    assert_eq!(mmap.len(), 24 + 28);

    let mut it = MemoryMapIter::new(&mmap);
    assert_eq!(it.off, 0);

    let first = it.next().unwrap().expect("first entry");
    assert_eq!(first.size, 20);
    assert_eq!(first.base_addr, 0x0);
    assert_eq!(first.length, 0x9F000);
    assert_eq!(first.kind, MEM_KIND_AVAILABLE);
    assert_eq!(it.off, 4 + 20);

    let second = it.next().unwrap().expect("second entry");
    assert_eq!(second.size, 24);
    assert_eq!(second.base_addr, 0x100000);
    assert_eq!(second.length, 0x3FF0_0000);
    assert_eq!(second.kind, 2);
    assert_eq!(it.off, mmap.len());

    assert!(it.next().unwrap().is_none());
    assert_eq!(it.off, mmap.len());
}

#[test]
fn map_iteration_rejects_truncated_record() {
    // 30 bytes: one whole 24-byte record, then 6 stray bytes — too few for
    // the fixed fields of another record.
    let mut mmap = Vec::new();
    push_entry(&mut mmap, 20, 0x0, 0x1000, MEM_KIND_AVAILABLE);
    mmap.extend_from_slice(&[0; 6]);

    let mut it = MemoryMapIter::new(&mmap);
    assert!(it.next().unwrap().is_some());
    assert!(matches!(it.next(), Err(BootError::Truncated)));
}

#[test]
fn empty_map_iterates_zero_times() {
    let mmap: Vec<u8> = Vec::new();
    let mut it = MemoryMapIter::new(&mmap);
    assert!(it.next().unwrap().is_none());
}
