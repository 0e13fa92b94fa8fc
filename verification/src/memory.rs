//! Capability-backed virtual memory regions with guard pages, and the
//! modeled page table they are mapped into.

use vstd::prelude::*;

use crate::cap::{CapError, CapabilityTable, ResourceHandle};
use crate::PAGE_SIZE;

verus! {

use vstd::arithmetic::div_mod::lemma_div_multiples_vanish;

/// Upper bound (exclusive) on page indices of the virtual address space
/// managed here: the lower canonical half of the 48-bit address space.
pub const MAX_PAGE: u64 = 0x8000_0000_0000 / 4096;

/// Page-table protection flags for a mapped page.
#[derive(Clone, Copy, Debug, PartialEq, Eq, Structural)]
pub struct PageFlags {
    pub present: bool,
    pub writable: bool,
    pub user_accessible: bool,
    pub no_execute: bool,
}

impl PageFlags {
    /// Flags for a user code region: present, writable (only until the code
    /// image has been written), user accessible, executable.
    pub fn user_code() -> (r: PageFlags)
        ensures
            r == (PageFlags {
                present: true,
                writable: true,
                user_accessible: true,
                no_execute: false,
            }),
    {
        PageFlags { present: true, writable: true, user_accessible: true, no_execute: false }
    }

    /// Flags for a user stack region: present, writable, user accessible,
    /// never executable.
    pub fn user_stack() -> (r: PageFlags)
        ensures
            r == (PageFlags {
                present: true,
                writable: true,
                user_accessible: true,
                no_execute: true,
            }),
    {
        PageFlags { present: true, writable: true, user_accessible: true, no_execute: true }
    }
}

/// A virtual address range of `pages` pages starting at virtual address
/// `start`. The range excludes the one unmapped guard page reserved
/// immediately before it and the one immediately after it.
#[derive(Clone, Copy, Debug, PartialEq, Eq, Structural)]
pub struct VirtualMemoryRegion {
    start: u64,
    pages: u64,
}

impl VirtualMemoryRegion {
    /// Virtual address of the first byte, as a mathematical value.
    pub closed spec fn spec_start(&self) -> u64 {
        self.start
    }

    /// Number of pages of the declared (inner) span.
    pub closed spec fn spec_pages(&self) -> u64 {
        self.pages
    }

    /// Page index of the first page of the region.
    pub open spec fn start_page(&self) -> int {
        self.spec_start() as int / 4096
    }

    /// Page index `p` lies in the declared span of the region.
    pub open spec fn contains_page(&self, p: int) -> bool {
        self.start_page() <= p < self.start_page() + self.spec_pages()
    }

    /// Well-formed: page-aligned, non-empty, with room for one guard page
    /// before and one after within the addressable space.
    pub open spec fn wf(&self) -> bool {
        &&& self.spec_start() % 4096 == 0
        &&& 1 <= self.spec_pages()
        &&& 4096 <= self.spec_start()
        &&& self.spec_start() / 4096 + self.spec_pages() + 1 <= MAX_PAGE
    }

    /// Virtual address of the first byte of the region.
    pub fn start(&self) -> (r: u64)
        ensures
            r == self.spec_start(),
    {
        self.start
    }

    /// Length of the declared span in bytes.
    pub fn len(&self) -> (r: u64)
        requires
            self.wf(),
        ensures
            r == self.spec_pages() * 4096,
    {
        self.pages * 4096
    }

    /// Number of pages of the declared span.
    pub fn page_count(&self) -> (r: u64)
        ensures
            r == self.spec_pages(),
    {
        self.pages
    }
}

/// One entry of the modeled page table.
#[derive(Clone, Copy, Debug)]
struct PageEntry {
    page: u64,
    flags: PageFlags,
}

/// Allocation failure: the virtual address space is exhausted.
#[derive(Clone, Copy, Debug, PartialEq, Eq, Structural)]
pub enum AllocError {
    OutOfVirtualSpace,
}

/// The managed virtual address space: a bump allocator for guarded regions
/// together with the page table installed for them.
pub struct AddressSpace {
    base_page: u64,
    next_page: u64,
    entries: Vec<PageEntry>,
    regions: Ghost<Seq<VirtualMemoryRegion>>,
}

impl AddressSpace {
    /// First page index this address space allocates from.
    pub closed spec fn spec_base_page(&self) -> u64 {
        self.base_page
    }

    /// Next free page index.
    pub closed spec fn spec_next_page(&self) -> u64 {
        self.next_page
    }

    /// Page index `p` is present in the page table.
    pub closed spec fn mapped(&self, p: int) -> bool {
        exists|i: int| 0 <= i < self.entries@.len() && self.entries@[i].page == p
    }

    /// Page index `p` is present in the page table with flags `f`.
    pub closed spec fn mapped_with(&self, p: int, f: PageFlags) -> bool {
        exists|i: int|
            0 <= i < self.entries@.len() && self.entries@[i].page == p && self.entries@[i].flags
                == f
    }

    /// The regions allocated from this address space, in allocation order.
    pub closed spec fn regions(&self) -> Seq<VirtualMemoryRegion> {
        self.regions@
    }

    /// `r` was allocated from this address space.
    pub open spec fn is_allocated(&self, r: VirtualMemoryRegion) -> bool {
        self.regions().contains(r)
    }

    /// Invariant: regions are well-formed, lie between the base and the next
    /// free page with their guard pages, are pairwise disjoint including
    /// their guard pages, and every mapped page lies in the declared span of
    /// some allocated region - so guard pages are never mapped.
    pub open spec fn wf(&self) -> bool {
        &&& 1 <= self.spec_base_page() <= self.spec_next_page() <= MAX_PAGE
        &&& forall|k: int| 0 <= k < self.regions().len() ==> (#[trigger] self.regions()[k]).wf()
        &&& forall|k: int|
            0 <= k < self.regions().len() ==> self.spec_base_page() + 1 <= (
            #[trigger] self.regions()[k]).start_page() && self.regions()[k].start_page()
                + self.regions()[k].spec_pages() + 1 <= self.spec_next_page()
        &&& forall|k: int, l: int|
            0 <= k < l < self.regions().len() ==> (#[trigger] self.regions()[k]).start_page()
                + self.regions()[k].spec_pages() + 2 <= (#[trigger] self.regions()[l]).start_page()
        &&& forall|p: int|
            #[trigger] self.mapped(p) ==> exists|k: int|
                0 <= k < self.regions().len() && (#[trigger] self.regions()[k]).contains_page(p)
    }

    /// A fresh address space that allocates pages starting at `base_page`,
    /// with an empty page table.
    pub fn new(base_page: u64) -> (s: AddressSpace)
        requires
            1 <= base_page <= MAX_PAGE,
        ensures
            s.wf(),
            s.spec_base_page() == base_page,
            s.spec_next_page() == base_page,
            s.regions() == Seq::<VirtualMemoryRegion>::empty(),
            forall|p: int| !s.mapped(p),
    {
        AddressSpace {
            base_page,
            next_page: base_page,
            entries: Vec::new(),
            regions: Ghost(Seq::empty()),
        }
    }

    /// Reserves `n + 2` contiguous pages and returns the inner `n` as a
    /// region; the outer two are guard pages, never handed out and never
    /// mapped. Fails exactly when the address space is exhausted.
    pub fn alloc_with_guard(&mut self, n: u64) -> (r: Result<VirtualMemoryRegion, AllocError>)
        requires
            old(self).wf(),
            1 <= n,
        ensures
            final(self).wf(),
            final(self).spec_base_page() == old(self).spec_base_page(),
            forall|p: int| final(self).mapped(p) <==> old(self).mapped(p),
            forall|p: int, f: PageFlags|
                final(self).mapped_with(p, f) <==> old(self).mapped_with(p, f),
            (r is Ok) <==> old(self).spec_next_page() + n + 2 <= MAX_PAGE,
            match r {
                Ok(region) => {
                    &&& region.wf()
                    &&& region.spec_pages() == n
                    &&& region.start_page() == old(self).spec_next_page() + 1
                    &&& region.spec_start() == (old(self).spec_next_page() + 1) * 4096
                    &&& final(self).spec_next_page() == old(self).spec_next_page() + n + 2
                    &&& final(self).regions() == old(self).regions().push(region)
                    &&& final(self).is_allocated(region)
                    &&& forall|p: int| region.contains_page(p) ==> !final(self).mapped(p)
                },
                Err(e) => {
                    &&& e == AllocError::OutOfVirtualSpace
                    &&& final(self).spec_next_page() == old(self).spec_next_page()
                    &&& final(self).regions() == old(self).regions()
                },
            },
    {
        if n <= MAX_PAGE - 2 && self.next_page <= MAX_PAGE - n - 2 {
            let start = (self.next_page + 1) * PAGE_SIZE;
            let region = VirtualMemoryRegion { start, pages: n };
            proof {
                lemma_div_multiples_vanish(self.next_page + 1, 4096);
                assert(start as int == 4096 * (self.next_page + 1));
                assert(region.start_page() == self.next_page + 1);
                assert(start as int % 4096 == 0) by {
                    lemma_div_multiples_vanish(self.next_page + 1, 4096);
                    vstd::arithmetic::div_mod::lemma_fundamental_div_mod(start as int, 4096);
                }
            }
            self.next_page = self.next_page + n + 2;
            proof {
                self.regions@ = self.regions@.push(region);
            }
            proof {
                assert(self.entries@ == old(self).entries@);
                assert(self.regions() == old(self).regions().push(region));
                assert forall|p: int| #[trigger] self.mapped(p) implies exists|k: int|
                    0 <= k < self.regions().len() && (#[trigger] self.regions()[k]).contains_page(
                        p,
                    ) by {
                    assert(old(self).mapped(p));
                    let k = choose|k: int|
                        0 <= k < old(self).regions().len() && (
                        #[trigger] old(self).regions()[k]).contains_page(p);
                    assert(self.regions()[k] == old(self).regions()[k]);
                    assert(self.regions()[k].contains_page(p));
                }
                assert forall|p: int| region.contains_page(p) implies !self.mapped(p) by {
                    if self.mapped(p) {
                        assert(old(self).mapped(p));
                        let k = choose|k: int|
                            0 <= k < old(self).regions().len() && (
                            #[trigger] old(self).regions()[k]).contains_page(p);
                        assert(old(self).regions()[k].start_page()
                            + old(self).regions()[k].spec_pages() + 1 <= old(
                            self,
                        ).spec_next_page());
                    }
                }
                assert forall|k: int|
                    0 <= k < self.regions().len() implies (#[trigger] self.regions()[k]).wf()
                    && self.spec_base_page() + 1 <= self.regions()[k].start_page()
                    && self.regions()[k].start_page() + self.regions()[k].spec_pages() + 1
                    <= self.spec_next_page() by {
                    if k < old(self).regions().len() {
                        assert(self.regions()[k] == old(self).regions()[k]);
                        assert(old(self).regions()[k].wf());
                        assert(old(self).regions()[k].start_page()
                            + old(self).regions()[k].spec_pages() + 1 <= old(
                            self,
                        ).spec_next_page());
                    } else {
                        assert(self.regions()[k] == region);
                    }
                }
                assert forall|k: int, l: int|
                    0 <= k < l < self.regions().len() implies (
                    #[trigger] self.regions()[k]).start_page() + self.regions()[k].spec_pages()
                    + 2 <= (#[trigger] self.regions()[l]).start_page() by {
                    assert(self.regions()[k] == old(self).regions()[k]);
                    if l < old(self).regions().len() {
                        assert(self.regions()[l] == old(self).regions()[l]);
                    } else {
                        assert(self.regions()[l] == region);
                        assert(old(self).regions()[k].start_page()
                            + old(self).regions()[k].spec_pages() + 1 <= old(
                            self,
                        ).spec_next_page());
                    }
                }
                assert(self.regions()[self.regions().len() - 1] == region);
                assert(self.is_allocated(region));
            }
            Ok(region)
        } else {
            Err(AllocError::OutOfVirtualSpace)
        }
    }

    /// Installs page-table entries, with the given protection flags, for
    /// exactly the declared span of the region the handle resolves to; the
    /// guard pages around it stay unmapped. Fails exactly when the handle
    /// does not resolve to a region of this table.
    pub fn map_region(
        &mut self,
        table: &CapabilityTable,
        h: &ResourceHandle,
        flags: PageFlags,
    ) -> (r: Result<(), CapError>)
        requires
            old(self).wf(),
            table.resolves_vm(h) ==> old(self).is_allocated(table.vm_of(h)) && (forall|p: int|
                table.vm_of(h).contains_page(p) ==> !old(self).mapped(p)),
        ensures
            final(self).wf(),
            (r is Ok) <==> table.resolves_vm(h),
            final(self).regions() == old(self).regions(),
            final(self).spec_next_page() == old(self).spec_next_page(),
            final(self).spec_base_page() == old(self).spec_base_page(),
            r is Err ==> (forall|p: int, f: PageFlags|
                final(self).mapped_with(p, f) <==> old(self).mapped_with(p, f)) && (forall|p: int|
                final(self).mapped(p) <==> old(self).mapped(p)),
            r is Ok ==> (forall|p: int|
                final(self).mapped(p) <==> (old(self).mapped(p) || table.vm_of(h).contains_page(
                    p,
                ))) && (forall|p: int|
                table.vm_of(h).contains_page(p) ==> final(self).mapped_with(p, flags)) && (forall|
                p: int,
                f: PageFlags,
            |
                !table.vm_of(h).contains_page(p) ==> (final(self).mapped_with(p, f) <==> old(
                    self,
                ).mapped_with(p, f))),
    {
        let region = match table.vm_region(h) {
            Ok(region) => *region,
            Err(e) => {
                return Err(e);
            },
        };
        let ghost old_entries = self.entries@;
        let start_page = region.start() / PAGE_SIZE;
        let pages = region.page_count();
        proof {
            assert(region == table.vm_of(h));
            assert(self.is_allocated(region));
            assert(region.wf());
            assert(start_page as int == region.start_page());
        }
        let mut i: u64 = 0;
        while i < pages
            invariant
                i <= pages,
                start_page as int == region.start_page(),
                pages == region.spec_pages(),
                region.wf(),
                self.entries@.len() == old_entries.len() + i,
                forall|t: int| 0 <= t < old_entries.len() ==> self.entries@[t] == old_entries[t],
                forall|t: int|
                    old_entries.len() <= t < self.entries@.len() ==> (#[trigger] self.entries@[t])
                        == (PageEntry { page: (start_page + (t - old_entries.len())) as u64, flags }),
                self.base_page == old(self).base_page,
                self.next_page == old(self).next_page,
                self.regions@ == old(self).regions@,
            decreases pages - i,
        {
            self.entries.push(PageEntry { page: start_page + i, flags });
            i = i + 1;
        }
        proof {
            let inner = table.vm_of(h);
            assert(inner == region);
            assert(old_entries == old(self).entries@);
            assert forall|p: int| #[trigger] self.mapped(p) <==> (old(self).mapped(p)
                || region.contains_page(p)) by {
                if self.mapped(p) {
                    let t = choose|t: int|
                        0 <= t < self.entries@.len() && self.entries@[t].page == p;
                    if t < old_entries.len() {
                        assert(old(self).entries@[t].page == p);
                        assert(old(self).mapped(p));
                    } else {
                        assert(region.contains_page(p));
                    }
                }
                if old(self).mapped(p) {
                    let t = choose|t: int| 0 <= t < old_entries.len() && old_entries[t].page == p;
                    assert(self.entries@[t].page == p);
                    assert(self.mapped(p));
                }
                if region.contains_page(p) {
                    let t = old_entries.len() + (p - region.start_page());
                    assert(self.entries@[t].page == p);
                    assert(self.mapped(p));
                }
            }
            assert forall|p: int| region.contains_page(p) implies self.mapped_with(
                p,
                flags,
            ) by {
                let t = old_entries.len() + (p - region.start_page());
                assert(self.entries@[t].page == p && self.entries@[t].flags == flags);
            }
            assert forall|p: int, f: PageFlags| !region.contains_page(p) implies (
            self.mapped_with(p, f) <==> old(self).mapped_with(p, f)) by {
                if self.mapped_with(p, f) {
                    let t = choose|t: int|
                        0 <= t < self.entries@.len() && self.entries@[t].page == p
                            && self.entries@[t].flags == f;
                    assert(t < old_entries.len());
                    assert(old(self).entries@[t].page == p && old(self).entries@[t].flags == f);
                    assert(old(self).mapped_with(p, f));
                }
                if old(self).mapped_with(p, f) {
                    let t = choose|t: int|
                        0 <= t < old_entries.len() && old_entries[t].page == p && old_entries[t].flags
                            == f;
                    assert(self.entries@[t].page == p && self.entries@[t].flags == f);
                }
            }
            assert forall|p: int| #[trigger] self.mapped(p) implies exists|k: int|
                0 <= k < self.regions().len() && (#[trigger] self.regions()[k]).contains_page(
                    p,
                ) by {
                if old(self).mapped(p) {
                    let k = choose|k: int|
                        0 <= k < old(self).regions().len() && (
                        #[trigger] old(self).regions()[k]).contains_page(p);
                    assert(self.regions()[k].contains_page(p));
                } else {
                    assert(region.contains_page(p));
                    let k = choose|k: int|
                        0 <= k < old(self).regions().len() && old(self).regions()[k] == region;
                    assert(self.regions()[k].contains_page(p));
                }
            }
        }
        Ok(())
    }

    /// Queries whether page index `page` is present in the page table.
    pub fn is_mapped(&self, page: u64) -> (r: bool)
        ensures
            r == self.mapped(page as int),
    {
        let mut i: usize = 0;
        let n = self.entries.len();
        while i < n
            invariant
                n == self.entries@.len(),
                i <= n,
                forall|t: int| 0 <= t < i ==> self.entries@[t].page != page,
            decreases n - i,
        {
            if self.entries[i].page == page {
                return true;
            }
            i = i + 1;
        }
        false
    }

    /// Returns the flags the page table holds for page index `page`, or
    /// `None` if the page is not mapped.
    pub fn page_flags(&self, page: u64) -> (r: Option<PageFlags>)
        ensures
            match r {
                Some(f) => self.mapped_with(page as int, f),
                None => !self.mapped(page as int),
            },
    {
        let mut i: usize = 0;
        let n = self.entries.len();
        while i < n
            invariant
                n == self.entries@.len(),
                i <= n,
                forall|t: int| 0 <= t < i ==> self.entries@[t].page != page,
            decreases n - i,
        {
            if self.entries[i].page == page {
                return Some(self.entries[i].flags);
            }
            i = i + 1;
        }
        None
    }
}

/// Guard-page property: for any region allocated from a well-formed address
/// space, the page immediately before its start and the page immediately
/// after its end are not present in the page table.
pub proof fn lemma_guard_pages_unmapped(s: AddressSpace, region: VirtualMemoryRegion)
    requires
        s.wf(),
        s.is_allocated(region),
    ensures
        !s.mapped(region.start_page() - 1),
        !s.mapped(region.start_page() + region.spec_pages()),
{
    let k = choose|k: int| 0 <= k < s.regions().len() && s.regions()[k] == region;
    if s.mapped(region.start_page() - 1) {
        let l = choose|l: int|
            0 <= l < s.regions().len() && (#[trigger] s.regions()[l]).contains_page(
                region.start_page() - 1,
            );
        if l < k {
            assert(s.regions()[l].start_page() + s.regions()[l].spec_pages() + 2
                <= s.regions()[k].start_page());
        } else if l > k {
            assert(s.regions()[k].start_page() + s.regions()[k].spec_pages() + 2
                <= s.regions()[l].start_page());
        }
    }
    if s.mapped(region.start_page() + region.spec_pages()) {
        let l = choose|l: int|
            0 <= l < s.regions().len() && (#[trigger] s.regions()[l]).contains_page(
                region.start_page() + region.spec_pages(),
            );
        if l < k {
            assert(s.regions()[l].start_page() + s.regions()[l].spec_pages() + 2
                <= s.regions()[k].start_page());
        } else if l > k {
            assert(s.regions()[k].start_page() + s.regions()[k].spec_pages() + 2
                <= s.regions()[l].start_page());
        }
    }
}

} // verus!
