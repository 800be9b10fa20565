use memflow_core::arch::{
    is_x86_arch, new_translator, underlying_arch, ArchitectureIdent, Endianess, X86Architecture,
    X86PageTableBase, X86ScopedVirtualTranslate,
};
use memflow_core::cache::CachedMemory;
use memflow_core::mem::{PhysicalBuffer, PhysicalMemory};
use memflow_core::translate::{Chunk, Failed, Translated};
use memflow_core::types::{Error, PageType};

fn put(mem: &mut [u8], addr: usize, v: u64, size: usize) {
    mem[addr..addr + size].copy_from_slice(&v.to_le_bytes()[..size]);
}

/// A long-mode address space rooted at 0x1000:
/// va 0x0000 -> 0x5000 (writeable), va 0x1000 -> 0x6000 (read-only, no-execute),
/// va 0x2000 not present, va 0x20_0000 a 2 MiB page at 0x60_0000,
/// va 0x40_0000 not present, va 0x4000_0000 a 1 GiB page at 0x8000_0000.
fn x64_fixture() -> Vec<u8> {
    let mut m = vec![0u8; 0x7000];
    put(&mut m, 0x1000, 0x2003, 8);
    put(&mut m, 0x2000, 0x3003, 8);
    put(&mut m, 0x2000 + 8, 0x8000_0083, 8);
    put(&mut m, 0x3000, 0x4003, 8);
    put(&mut m, 0x3000 + 8, 0x60_0083, 8);
    put(&mut m, 0x4000, 0x5003, 8);
    put(&mut m, 0x4000 + 8, 0x8000_0000_0000_6001, 8);
    for i in 0..0x2000 {
        m[0x5000 + i] = (i % 251) as u8;
    }
    m
}

fn x64_translator() -> X86ScopedVirtualTranslate {
    new_translator(0x1000, ArchitectureIdent::X86(64, false)).unwrap()
}

fn translate_one<M: PhysicalMemory>(
    t: &X86ScopedVirtualTranslate,
    mem: &mut M,
    va: u64,
    len: usize,
) -> (Vec<Translated>, Vec<Failed>) {
    let mut out = Vec::new();
    let mut fails = Vec::new();
    t.virt_to_phys_iter(mem, &vec![(va, len)], &mut out, &mut fails);
    (out, fails)
}

#[test]
fn translates_small_page() {
    let t = x64_translator();
    let mut mem = PhysicalBuffer::new(x64_fixture());
    let pa = t.arch().mmu().virt_to_phys(&mut mem, t.dtb(), 0x123).unwrap();
    assert_eq!(pa.address, 0x5123);
    assert_eq!(pa.page_size, 0x1000);
    assert_eq!(pa.page_type, PageType::data(true, false));
}

#[test]
fn classifies_read_only_no_execute_page() {
    let t = x64_translator();
    let mut mem = PhysicalBuffer::new(x64_fixture());
    let pa = t.arch().mmu().virt_to_phys(&mut mem, t.dtb(), 0x1abc).unwrap();
    assert_eq!(pa.address, 0x6abc);
    assert!(pa.page_type.read_only);
    assert!(!pa.page_type.writeable);
    assert!(pa.page_type.noexec);
    assert!(!pa.page_type.page_table);
}

#[test]
fn large_page_ends_walk_and_keeps_offset() {
    let t = x64_translator();
    let mut mem = PhysicalBuffer::new(x64_fixture());
    let pa = t.arch().mmu().virt_to_phys(&mut mem, t.dtb(), 0x20_1234).unwrap();
    assert_eq!(pa.address, 0x60_1234);
    assert_eq!(pa.page_size, 0x20_0000);
    assert_eq!(pa.address & (pa.page_size - 1), 0x20_1234 & (pa.page_size - 1));
    let reads_2m = mem.read_count();
    assert_eq!(reads_2m, 3);

    let pa = t.arch().mmu().virt_to_phys(&mut mem, t.dtb(), 0x4001_2345).unwrap();
    assert_eq!(pa.address, 0x8001_2345);
    assert_eq!(pa.page_size, 0x4000_0000);
    assert_eq!(mem.read_count(), reads_2m + 2);
}

#[test]
fn clear_present_bit_fails() {
    let t = x64_translator();
    let mut mem = PhysicalBuffer::new(x64_fixture());
    let mmu = t.arch().mmu();
    assert_eq!(mmu.virt_to_phys(&mut mem, t.dtb(), 0x2000), Err(Error::PageNotPresent));
    assert_eq!(mmu.virt_to_phys(&mut mem, t.dtb(), 0x40_0000), Err(Error::PageNotPresent));
    assert_eq!(mmu.virt_to_phys(&mut mem, t.dtb(), 0x80_0000_0000), Err(Error::PageNotPresent));
}

#[test]
fn table_outside_memory_is_io_failure() {
    let t = new_translator(0x10_0000, ArchitectureIdent::X86(64, false)).unwrap();
    let mut mem = PhysicalBuffer::new(x64_fixture());
    assert_eq!(t.arch().mmu().virt_to_phys(&mut mem, t.dtb(), 0), Err(Error::IoFailure));
}

#[test]
fn translates_x32_tables() {
    let mut m = vec![0u8; 0x4000];
    put(&mut m, 0x1000, 0x2003, 4);
    put(&mut m, 0x1000 + 4, 0x00C0_0083, 4);
    put(&mut m, 0x2000, 0x3001, 4);
    let mut mem = PhysicalBuffer::new(m);
    let t = new_translator(0x1000, ArchitectureIdent::X86(32, false)).unwrap();
    let mmu = t.arch().mmu();
    let pa = mmu.virt_to_phys(&mut mem, t.dtb(), 0x0000_0456).unwrap();
    assert_eq!(pa.address, 0x3456);
    assert!(pa.page_type.read_only);
    assert!(!pa.page_type.noexec);
    let pa = mmu.virt_to_phys(&mut mem, t.dtb(), 0x0040_5678).unwrap();
    assert_eq!(pa.address, 0x00C0_5678);
    assert_eq!(pa.page_size, 0x40_0000);
    assert_eq!(mmu.virt_to_phys(&mut mem, t.dtb(), 0x1_0000_0000), Err(Error::OutOfBounds));
}

#[test]
fn translates_pae_tables() {
    let mut m = vec![0u8; 0x5000];
    put(&mut m, 0x1000, 0x2001, 8);
    put(&mut m, 0x2000, 0x3003, 8);
    put(&mut m, 0x2000 + 8, 0x0060_0083, 8);
    put(&mut m, 0x3000, 0x8000_0000_0000_4003, 8);
    let mut mem = PhysicalBuffer::new(m);
    let t = new_translator(0x1000, ArchitectureIdent::X86(32, true)).unwrap();
    let mmu = t.arch().mmu();
    let pa = mmu.virt_to_phys(&mut mem, t.dtb(), 0x0000_0789).unwrap();
    assert_eq!(pa.address, 0x4789);
    assert!(pa.page_type.writeable);
    assert!(pa.page_type.noexec);
    let pa = mmu.virt_to_phys(&mut mem, t.dtb(), 0x0020_0010).unwrap();
    assert_eq!(pa.address, 0x0060_0010);
    assert_eq!(pa.page_size, 0x20_0000);
    assert_eq!(mmu.virt_to_phys(&mut mem, t.dtb(), 0x4000_0000), Err(Error::PageNotPresent));
    assert_eq!(mmu.virt_to_phys(&mut mem, t.dtb(), 0x1_0000_0000), Err(Error::OutOfBounds));
}

#[test]
fn batch_covers_every_piece_once() {
    let t = x64_translator();
    let mut mem = PhysicalBuffer::new(x64_fixture());
    let reqs = vec![(0x10u64, 8usize), (0x2010, 4), (0xffc, 8), (0x20_0000, 16)];
    let mut out = Vec::new();
    let mut fails = Vec::new();
    t.virt_to_phys_iter(&mut mem, &reqs, &mut out, &mut fails);
    assert_eq!(out.len() + fails.len(), 5);
    assert_eq!(out.len(), 4);
    assert_eq!(fails.len(), 1);
    assert_eq!(fails[0], (Error::PageNotPresent, 0x2010, Chunk { req: 1, offset: 0, len: 4 }));
    let mut chunks: Vec<Chunk> = out.iter().map(|s| s.1).collect();
    chunks.extend(fails.iter().map(|f| f.2));
    chunks.sort_by_key(|c| (c.req, c.offset));
    assert_eq!(
        chunks,
        vec![
            Chunk { req: 0, offset: 0, len: 8 },
            Chunk { req: 1, offset: 0, len: 4 },
            Chunk { req: 2, offset: 0, len: 4 },
            Chunk { req: 2, offset: 4, len: 4 },
            Chunk { req: 3, offset: 0, len: 16 },
        ]
    );
}

#[test]
fn batch_without_boundary_crossing_has_one_outcome_per_request() {
    let t = x64_translator();
    let mut mem = PhysicalBuffer::new(x64_fixture());
    let reqs = vec![(0x0u64, 0x1000usize), (0x1ff0, 16), (0x2000, 1), (0x3000, 0)];
    let mut out = Vec::new();
    let mut fails = Vec::new();
    t.virt_to_phys_iter(&mut mem, &reqs, &mut out, &mut fails);
    assert_eq!(out.len() + fails.len(), reqs.len());
}

#[test]
fn page_boundary_read_splits_in_two() {
    let t = x64_translator();
    let mut mem = PhysicalBuffer::new(x64_fixture());
    let (out, fails) = translate_one(&t, &mut mem, 0xffd, 7);
    assert!(fails.is_empty());
    assert_eq!(out.len(), 2);
    assert_eq!(out[0].0.address, 0x5ffd);
    assert_eq!(out[0].1, Chunk { req: 0, offset: 0, len: 3 });
    assert_eq!(out[1].0.address, 0x6000);
    assert_eq!(out[1].1, Chunk { req: 0, offset: 3, len: 4 });

    let joined = t.virt_read(&mut mem, 0xffd, 7).unwrap();
    let fixture = x64_fixture();
    let mut expected = fixture[0x5ffd..0x6000].to_vec();
    expected.extend_from_slice(&fixture[0x6000..0x6004]);
    assert_eq!(joined, expected);
}

#[test]
fn virtual_read_of_unmapped_page_fails() {
    let t = x64_translator();
    let mut mem = PhysicalBuffer::new(x64_fixture());
    assert_eq!(t.virt_read(&mut mem, 0x1ff0, 32), Err(Error::PageNotPresent));
    assert_eq!(t.virt_read(&mut mem, 0x20_0000, 4), Err(Error::IoFailure));
    assert_eq!(t.virt_read(&mut mem, 0x10, 0), Ok(vec![]));
}

#[test]
fn request_past_end_of_address_space_is_out_of_bounds() {
    let t = x64_translator();
    let mut mem = PhysicalBuffer::new(x64_fixture());
    let (out, fails) = translate_one(&t, &mut mem, u64::MAX - 3, 8);
    assert!(out.is_empty());
    assert_eq!(fails, vec![(Error::OutOfBounds, u64::MAX - 3, Chunk { req: 0, offset: 0, len: 8 })]);
}

#[test]
fn cache_serves_second_walk_without_physical_reads() {
    let t = x64_translator();
    let plain = {
        let mut mem = PhysicalBuffer::new(x64_fixture());
        translate_one(&t, &mut mem, 0x123, 8)
    };
    let mut cached =
        CachedMemory::new(PhysicalBuffer::new(x64_fixture()), 1 << 20, 100, PageType::page_table(), 0x1000);
    let first = translate_one(&t, &mut cached, 0x123, 8);
    assert_eq!(cached.inner().read_count(), 4);
    assert_eq!(cached.cached_pages(), 4);
    let second = translate_one(&t, &mut cached, 0x123, 8);
    assert_eq!(cached.inner().read_count(), 4);
    assert_eq!(first, plain);
    assert_eq!(second, plain);
}

#[test]
fn cached_page_read_matches_uncached_read() {
    let mut plain = PhysicalBuffer::new(x64_fixture());
    let direct = plain.phys_read(0x3008, PageType::page_table(), 8).unwrap();
    let mut cached =
        CachedMemory::new(PhysicalBuffer::new(x64_fixture()), 1 << 20, 100, PageType::page_table(), 0x1000);
    let a = cached.phys_read(0x3008, PageType::page_table(), 8).unwrap();
    let b = cached.phys_read(0x3008, PageType::page_table(), 8).unwrap();
    assert_eq!(a, direct);
    assert_eq!(b, direct);
    assert_eq!(cached.inner().read_count(), 1);
}

#[test]
fn cache_entry_expires_after_ttl() {
    let mut cached =
        CachedMemory::new(PhysicalBuffer::new(x64_fixture()), 1 << 20, 100, PageType::page_table(), 0x1000);
    cached.phys_read(0x2000, PageType::page_table(), 8).unwrap();
    cached.set_time(99);
    cached.phys_read(0x2000, PageType::page_table(), 8).unwrap();
    assert_eq!(cached.inner().read_count(), 1);
    cached.set_time(100);
    cached.phys_read(0x2000, PageType::page_table(), 8).unwrap();
    assert_eq!(cached.inner().read_count(), 2);
    assert_eq!(cached.now(), 100);
}

#[test]
fn pages_outside_filter_bypass_cache() {
    let mut cached =
        CachedMemory::new(PhysicalBuffer::new(x64_fixture()), 1 << 20, 100, PageType::page_table(), 0x1000);
    let data = PageType::data(true, false);
    cached.phys_read(0x5000, data, 8).unwrap();
    cached.phys_read(0x5000, data, 8).unwrap();
    assert_eq!(cached.inner().read_count(), 2);
    assert_eq!(cached.cached_pages(), 0);
}

#[test]
fn cache_evicts_oldest_page_at_capacity() {
    let mut cached =
        CachedMemory::new(PhysicalBuffer::new(x64_fixture()), 0x2000, 1000, PageType::page_table(), 0x1000);
    let pt = PageType::page_table();
    cached.phys_read(0x1000, pt, 8).unwrap();
    cached.set_time(1);
    cached.phys_read(0x2000, pt, 8).unwrap();
    cached.set_time(2);
    cached.phys_read(0x3000, pt, 8).unwrap();
    assert_eq!(cached.cached_pages(), 2);
    assert_eq!(cached.inner().read_count(), 3);
    cached.phys_read(0x2000, pt, 8).unwrap();
    assert_eq!(cached.inner().read_count(), 3);
    cached.phys_read(0x1000, pt, 8).unwrap();
    assert_eq!(cached.inner().read_count(), 4);
}

#[test]
fn write_goes_through_and_drops_cached_page() {
    let mut cached =
        CachedMemory::new(PhysicalBuffer::new(x64_fixture()), 1 << 20, 100, PageType::page_table(), 0x1000);
    let pt = PageType::page_table();
    assert_eq!(cached.phys_read(0x4000, pt, 8).unwrap(), 0x5003u64.to_le_bytes().to_vec());
    cached.phys_write(0x4000, &0x6003u64.to_le_bytes().to_vec()).unwrap();
    assert_eq!(cached.cached_pages(), 0);
    assert_eq!(cached.phys_read(0x4000, pt, 8).unwrap(), 0x6003u64.to_le_bytes().to_vec());
    assert_eq!(cached.inner().bytes()[0x4000], 0x03);
    assert_eq!(cached.phys_write(0x6ffc, &vec![0u8; 8]), Err(Error::IoFailure));
}

#[test]
fn repeated_batches_give_identical_results() {
    let t = x64_translator();
    let mut cached =
        CachedMemory::new(PhysicalBuffer::new(x64_fixture()), 1 << 20, 100, PageType::page_table(), 0x1000);
    let reqs = vec![(0x10u64, 8usize), (0x2010, 4), (0xffc, 8), (0x4000_0010, 16)];
    let mut runs = Vec::new();
    for now in [0u64, 50, 500] {
        cached.set_time(now);
        let mut out = Vec::new();
        let mut fails = Vec::new();
        t.virt_to_phys_iter(&mut cached, &reqs, &mut out, &mut fails);
        runs.push((out, fails));
    }
    assert_eq!(runs[0], runs[1]);
    assert_eq!(runs[1], runs[2]);
}

#[test]
fn failing_address_leaves_sibling_untouched() {
    let t = x64_translator();
    let mut mem = PhysicalBuffer::new(x64_fixture());
    let alone = translate_one(&t, &mut mem, 0x1008, 8);
    let mut out = Vec::new();
    let mut fails = Vec::new();
    t.virt_to_phys_iter(&mut mem, &vec![(0x2008u64, 8usize), (0x1008, 8)], &mut out, &mut fails);
    assert_eq!(fails, vec![(Error::PageNotPresent, 0x2008, Chunk { req: 0, offset: 0, len: 8 })]);
    assert_eq!(out.len(), 1);
    assert_eq!(out[0].0, alone.0[0].0);
    assert_eq!(out[0].1, Chunk { req: 1, offset: 0, len: 8 });
}

#[test]
fn translator_needs_x86_architecture() {
    assert!(is_x86_arch(ArchitectureIdent::X86(64, false)));
    assert!(is_x86_arch(ArchitectureIdent::X86(32, false)));
    assert!(is_x86_arch(ArchitectureIdent::X86(32, true)));
    assert!(!is_x86_arch(ArchitectureIdent::X86(64, true)));
    assert!(!is_x86_arch(ArchitectureIdent::AArch64(4096)));
    assert!(!is_x86_arch(ArchitectureIdent::Unknown));
    assert_eq!(
        new_translator(0x1000, ArchitectureIdent::AArch64(4096)).err(),
        Some(Error::InvalidArchitecture)
    );
    assert_eq!(underlying_arch(ArchitectureIdent::X86(32, true)), Some(X86Architecture::x32_pae()));
    assert_eq!(underlying_arch(ArchitectureIdent::Unknown), None);
}

#[test]
fn architecture_queries() {
    let x64 = X86Architecture::x64();
    assert_eq!((x64.bits(), x64.page_size(), x64.size_addr()), (64, 4096, 8));
    assert_eq!(x64.endianess(), Endianess::LittleEndian);
    let x32 = X86Architecture::x32();
    assert_eq!((x32.bits(), x32.page_size(), x32.size_addr()), (32, 4096, 4));
    let pae = X86Architecture::x32_pae();
    assert_eq!((pae.bits(), pae.page_size(), pae.size_addr()), (32, 4096, 4));
    assert_eq!(x64.mmu().levels, 4);
    assert_eq!(pae.mmu().levels, 3);
    assert_eq!(x32.mmu().pte_size, 4);
}

#[test]
fn scoped_translator_holds_root() {
    let t = X86ScopedVirtualTranslate::new(X86Architecture::x64(), 0x1a_b000);
    assert_eq!(t.dtb(), 0x1a_b000);
    assert_eq!(t.translation_table_id(0xdead_0000), 0x1ab);
    assert_eq!(t.arch(), X86Architecture::x64());
    assert_eq!(X86PageTableBase(0x5000).get_initial_pt(0x1234), 0x5000);
}

#[test]
fn page_type_flags_combine() {
    let a = PageType::page_table();
    let b = PageType::data(false, true);
    let u = a.union(&b);
    assert!(u.page_table && u.read_only && u.noexec && !u.writeable);
    assert!(u.intersects(&a));
    assert!(!a.intersects(&b));
    assert!(!PageType::none().intersects(&u));
}

#[test]
fn long_read_matches_byte_by_byte_translation() {
    let t = x64_translator();
    let mut mem = PhysicalBuffer::new(x64_fixture());
    let fixture = x64_fixture();
    let v = t.virt_read(&mut mem, 0x0f00, 0x200).unwrap();
    assert_eq!(v.len(), 0x200);
    for (i, b) in v.iter().enumerate() {
        let va = 0x0f00 + i as u64;
        let pa = t.arch().mmu().virt_to_phys(&mut mem, t.dtb(), va).unwrap();
        assert_eq!(*b, fixture[pa.address as usize]);
    }
}
