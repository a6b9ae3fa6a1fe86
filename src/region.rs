use vstd::prelude::*;

verus! {

/// Region state: backed by storage.
pub const MEM_COMMIT: u32 = 0x1000;
/// Region type: private to the process.
pub const MEM_PRIVATE: u32 = 0x20000;
/// Region type: a view of a mapped file.
pub const MEM_MAPPED: u32 = 0x40000;
/// Region type: a view of an executable image.
pub const MEM_IMAGE: u32 = 0x1000000;

pub const PAGE_NOACCESS: u32 = 0x01;
pub const PAGE_READONLY: u32 = 0x02;
pub const PAGE_READWRITE: u32 = 0x04;
pub const PAGE_WRITECOPY: u32 = 0x08;
pub const PAGE_EXECUTE: u32 = 0x10;
pub const PAGE_EXECUTE_READ: u32 = 0x20;
pub const PAGE_EXECUTE_READWRITE: u32 = 0x40;
pub const PAGE_EXECUTE_WRITECOPY: u32 = 0x80;
pub const PAGE_GUARD: u32 = 0x100;

/// The end of a 48-bit user-mode address space, the default ceiling for scans.
pub const USER_ADDRESS_CEILING: u64 = 0x7FFF_FFFF_FFFF;

/// One virtual-memory range as the debugger engine describes it.
#[derive(Debug, Clone, Copy, PartialEq, Eq, Structural)]
pub struct MemoryRegion {
    pub base: usize,
    pub size: usize,
    pub state: u32,
    pub mem_type: u32,
    pub protect: u32,
    pub flags: u32,
    pub alloc_base: usize,
}

/// Which kinds of region a scan asks for.
#[derive(Debug, Clone, Copy, PartialEq, Eq, Structural)]
pub struct CapabilityMask {
    pub mapped: bool,
    pub readable: bool,
    pub writable: bool,
    pub executable: bool,
}

/// A region descriptor as handed across the foreign boundary, with the
/// engine's names for its type, protection and usage.
#[derive(Debug, Clone)]
pub struct CMemoryPageInfo {
    pub base: usize,
    pub size: usize,
    pub flags: u32,
    pub mem_type: String,
    pub mem_protect: String,
    pub mem_usage: Option<String>,
    pub alloc_base: usize,
}

pub open spec fn has_flag(protect: u32, flag: u32) -> bool {
    protect & flag != 0
}

pub open spec fn is_readable(protect: u32) -> bool {
    has_flag(protect, PAGE_READONLY)
}

pub open spec fn is_writable(protect: u32) -> bool {
    has_flag(protect, PAGE_READWRITE) || has_flag(protect, PAGE_WRITECOPY) || has_flag(
        protect,
        PAGE_EXECUTE_READWRITE,
    ) || has_flag(protect, PAGE_EXECUTE_WRITECOPY)
}

pub open spec fn is_executable(protect: u32) -> bool {
    has_flag(protect, PAGE_EXECUTE) || has_flag(protect, PAGE_EXECUTE_READ) || has_flag(
        protect,
        PAGE_EXECUTE_READWRITE,
    ) || has_flag(protect, PAGE_EXECUTE_WRITECOPY)
}

/// The conditions that do not depend on the capabilities asked for.
pub open spec fn region_valid(r: MemoryRegion, mask: CapabilityMask, ceiling: u64) -> bool {
    &&& r.state == MEM_COMMIT
    &&& r.base < ceiling
    &&& !has_flag(r.protect, PAGE_GUARD)
    &&& !has_flag(r.protect, PAGE_NOACCESS)
    &&& if mask.mapped {
        r.mem_type == MEM_MAPPED
    } else {
        r.mem_type == MEM_PRIVATE || r.mem_type == MEM_IMAGE
    }
}

/// A region is eligible when it is valid and one requested capability holds of it.
pub open spec fn eligible(r: MemoryRegion, mask: CapabilityMask, ceiling: u64) -> bool {
    &&& region_valid(r, mask, ceiling)
    &&& (mask.readable && is_readable(r.protect) || mask.writable && is_writable(r.protect)
        || mask.executable && is_executable(r.protect))
}

/// The eligible regions of `s`, in the order given.
pub open spec fn eligible_regions(s: Seq<MemoryRegion>, mask: CapabilityMask, ceiling: u64) -> Seq<
    MemoryRegion,
>
    decreases s.len(),
{
    if s.len() == 0 {
        seq![]
    } else {
        let pre = eligible_regions(s.drop_last(), mask, ceiling);
        if eligible(s.last(), mask, ceiling) {
            pre.push(s.last())
        } else {
            pre
        }
    }
}

fn flag_set(protect: u32, flag: u32) -> (r: bool)
    ensures
        r == has_flag(protect, flag),
{
    protect & flag != 0
}

/// Whether one region is eligible for a scan under `mask`.
pub fn region_eligible(r: &MemoryRegion, mask: &CapabilityMask, ceiling: u64) -> (b: bool)
    ensures
        b == eligible(*r, *mask, ceiling),
{
    let p = r.protect;
    let type_ok = if mask.mapped {
        r.mem_type == MEM_MAPPED
    } else {
        r.mem_type == MEM_PRIVATE || r.mem_type == MEM_IMAGE
    };
    let valid = r.state == MEM_COMMIT && (r.base as u64) < ceiling && !flag_set(p, PAGE_GUARD) && !flag_set(
        p,
        PAGE_NOACCESS,
    ) && type_ok;
    if !valid {
        return false;
    }
    let readable = flag_set(p, PAGE_READONLY);
    let writable = flag_set(p, PAGE_READWRITE) || flag_set(p, PAGE_WRITECOPY) || flag_set(
        p,
        PAGE_EXECUTE_READWRITE,
    ) || flag_set(p, PAGE_EXECUTE_WRITECOPY);
    let executable = flag_set(p, PAGE_EXECUTE) || flag_set(p, PAGE_EXECUTE_READ) || flag_set(
        p,
        PAGE_EXECUTE_READWRITE,
    ) || flag_set(p, PAGE_EXECUTE_WRITECOPY);
    readable && mask.readable || writable && mask.writable || executable && mask.executable
}

/// Keeps the regions eligible for a scan under `mask`, in the engine's order.
pub fn filter_pages(pages: &Vec<MemoryRegion>, mask: CapabilityMask, ceiling: u64) -> (r: Vec<
    MemoryRegion,
>)
    ensures
        r@ == eligible_regions(pages@, mask, ceiling),
{
    let mut out: Vec<MemoryRegion> = Vec::new();
    let mut i: usize = 0;
    while i < pages.len()
        invariant
            i <= pages.len(),
            out@ == eligible_regions(pages@.take(i as int), mask, ceiling),
        decreases pages.len() - i,
    {
        let page = pages[i];
        assert(pages@.take(i + 1).drop_last() =~= pages@.take(i as int));
        if region_eligible(&page, &mask, ceiling) {
            out.push(page);
        }
        i = i + 1;
    }
    assert(pages@.take(pages.len() as int) =~= pages@);
    out
}

/// A region is among the eligible ones exactly when it is in `s` and eligible.
pub proof fn lemma_eligible_regions(s: Seq<MemoryRegion>, mask: CapabilityMask, ceiling: u64)
    ensures
        forall|r: MemoryRegion| #[trigger]
            eligible_regions(s, mask, ceiling).contains(r) <==> (s.contains(r) && eligible(
                r,
                mask,
                ceiling,
            )),
    decreases s.len(),
{
    if s.len() > 0 {
        let init = s.drop_last();
        lemma_eligible_regions(init, mask, ceiling);
        let pre = eligible_regions(init, mask, ceiling);
        assert forall|r: MemoryRegion| s.contains(r) <==> (init.contains(r) || r == s.last()) by {
            if s.contains(r) {
                let w = choose|w: int| 0 <= w < s.len() && #[trigger] s[w] == r;
                if w < s.len() - 1 {
                    assert(init[w] == r);
                }
            }
            if init.contains(r) {
                let w = choose|w: int| 0 <= w < init.len() && #[trigger] init[w] == r;
                assert(s[w] == r);
            }
        }
        assert forall|r: MemoryRegion| #[trigger]
            pre.push(s.last()).contains(r) <==> (pre.contains(r) || r == s.last()) by {
            if pre.push(s.last()).contains(r) {
                let w = choose|w: int| 0 <= w < pre.len() + 1 && #[trigger] pre.push(s.last())[w] == r;
                if w < pre.len() {
                    assert(pre[w] == r);
                }
            }
            if pre.contains(r) {
                let w = choose|w: int| 0 <= w < pre.len() && #[trigger] pre[w] == r;
                assert(pre.push(s.last())[w] == r);
            }
            if r == s.last() {
                assert(pre.push(s.last())[pre.len() as int] == r);
            }
        }
    }
}

/// `small` asks for no capability that `large` does not, and for the same
/// kind of mapping.
pub open spec fn mask_within(small: CapabilityMask, large: CapabilityMask) -> bool {
    &&& small.mapped == large.mapped
    &&& small.readable ==> large.readable
    &&& small.writable ==> large.writable
    &&& small.executable ==> large.executable
}

/// Asking for more capabilities never loses an eligible region.
pub proof fn law_filter_monotone(
    pages: Seq<MemoryRegion>,
    small: CapabilityMask,
    large: CapabilityMask,
    ceiling: u64,
)
    requires
        mask_within(small, large),
    ensures
        forall|r: MemoryRegion| #[trigger]
            eligible_regions(pages, small, ceiling).contains(r) ==> eligible_regions(
                pages,
                large,
                ceiling,
            ).contains(r),
{
    lemma_eligible_regions(pages, small, ceiling);
    lemma_eligible_regions(pages, large, ceiling);
}

} // verus!
