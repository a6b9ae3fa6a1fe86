use rsmem::region::{
    filter_pages, region_eligible, CapabilityMask, MemoryRegion, MEM_COMMIT, MEM_IMAGE,
    MEM_MAPPED, MEM_PRIVATE, PAGE_EXECUTE_READ, PAGE_EXECUTE_READWRITE, PAGE_GUARD,
    PAGE_NOACCESS, PAGE_READONLY, PAGE_READWRITE, USER_ADDRESS_CEILING,
};

fn region(base: usize, mem_type: u32, protect: u32) -> MemoryRegion {
    MemoryRegion { base, size: 0x1000, state: MEM_COMMIT, mem_type, protect, flags: 0, alloc_base: base }
}

fn mask(mapped: bool, readable: bool, writable: bool, executable: bool) -> CapabilityMask {
    CapabilityMask { mapped, readable, writable, executable }
}

#[test]
fn readable_private_region_is_kept() {
    let pages = vec![region(0x1000, MEM_PRIVATE, PAGE_READONLY)];
    assert_eq!(filter_pages(&pages, mask(false, true, false, false), USER_ADDRESS_CEILING), pages);
}

#[test]
fn excluded_regions() {
    let mut reserved = region(0x1000, MEM_PRIVATE, PAGE_READONLY);
    reserved.state = 0x2000;
    let pages = vec![
        reserved,
        region(0x2000, MEM_PRIVATE, PAGE_READONLY | PAGE_GUARD),
        region(0x3000, MEM_PRIVATE, PAGE_NOACCESS),
        region(0x4000, MEM_MAPPED, PAGE_READONLY),
        region(0x7FFF_FFFF_FFFF, MEM_PRIVATE, PAGE_READONLY),
        region(0x5000, MEM_IMAGE, PAGE_READWRITE),
    ];
    assert!(filter_pages(&pages, mask(false, true, false, false), USER_ADDRESS_CEILING).is_empty());
}

#[test]
fn mapped_mask_keeps_only_mapped_regions() {
    let pages = vec![
        region(0x1000, MEM_PRIVATE, PAGE_READONLY),
        region(0x2000, MEM_MAPPED, PAGE_READONLY),
    ];
    let r = filter_pages(&pages, mask(true, true, false, false), USER_ADDRESS_CEILING);
    assert_eq!(r, vec![pages[1]]);
}

#[test]
fn more_capabilities_keep_more_regions_in_order() {
    let pages = vec![
        region(0x1000, MEM_IMAGE, PAGE_EXECUTE_READ),
        region(0x2000, MEM_PRIVATE, PAGE_READWRITE),
        region(0x3000, MEM_PRIVATE, PAGE_READONLY),
        region(0x4000, MEM_PRIVATE, PAGE_EXECUTE_READWRITE),
    ];
    let w = filter_pages(&pages, mask(false, false, true, false), USER_ADDRESS_CEILING);
    assert_eq!(w, vec![pages[1], pages[3]]);
    let wx = filter_pages(&pages, mask(false, false, true, true), USER_ADDRESS_CEILING);
    assert_eq!(wx, vec![pages[0], pages[1], pages[3]]);
    let all = filter_pages(&pages, mask(false, true, true, true), USER_ADDRESS_CEILING);
    assert_eq!(all, pages);
    assert!(filter_pages(&pages, mask(false, false, false, false), USER_ADDRESS_CEILING).is_empty());
}

#[test]
fn ceiling_is_a_parameter() {
    let r = region(0x8000, MEM_PRIVATE, PAGE_READONLY);
    assert!(region_eligible(&r, &mask(false, true, false, false), 0x8001));
    assert!(!region_eligible(&r, &mask(false, true, false, false), 0x8000));
}
