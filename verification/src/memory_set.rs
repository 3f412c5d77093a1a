//! The address space of a task: which virtual pages are mapped, and with
//! which page-table flags.

use vstd::prelude::*;
use std::collections::BTreeMap;
use crate::address::VirtPageNum;
use vstd::std_specs::iter::IteratorSpec;

verus! {

/// Page-table flag: the entry is valid.
pub const PTE_V: u8 = 1;

/// Page may be read.
pub const MAP_PERM_R: u8 = 2;

/// Page may be written.
pub const MAP_PERM_W: u8 = 4;

/// Page may be executed.
pub const MAP_PERM_X: u8 = 8;

/// Page may be accessed from user mode.
pub const MAP_PERM_U: u8 = 16;

/// The access rights of a mapped area, as the bits `R`, `W`, `X`, `U`.
#[derive(Clone, Copy, Debug, PartialEq, Eq, Structural)]
pub struct MapPermission {
    pub bits: u8,
}

impl MapPermission {
    /// A permission made of exactly the given bits.
    pub fn from_bits(bits: u8) -> (p: MapPermission)
        ensures
            p.bits == bits,
    {
        MapPermission { bits }
    }

    /// The union of two permissions.
    pub fn union(self, other: MapPermission) -> (p: MapPermission)
        ensures
            p.bits == self.bits | other.bits,
    {
        MapPermission { bits: self.bits | other.bits }
    }

    /// The page-table flags that a page mapped with this permission carries:
    /// the permission bits together with the valid bit.
    pub fn pte_flags(self) -> (f: u8)
        ensures
            f == self.bits | PTE_V,
    {
        self.bits | PTE_V
    }
}

/// The pages `lo <= vpn < hi`.
pub open spec fn in_range(vpn: usize, lo: nat, hi: nat) -> bool {
    lo <= vpn && vpn < hi
}

/// Every page of `lo..hi` is mapped in `m`.
pub open spec fn range_mapped(m: Map<usize, u8>, lo: nat, hi: nat) -> bool {
    forall|vpn: usize| #[trigger] in_range(vpn, lo, hi) ==> m.contains_key(vpn)
}

/// No page of `lo..hi` is mapped in `m`.
pub open spec fn range_unmapped(m: Map<usize, u8>, lo: nat, hi: nat) -> bool {
    forall|vpn: usize| #[trigger] in_range(vpn, lo, hi) ==> !m.contains_key(vpn)
}

/// `m` with every page of `lo..hi` mapped with `flags`.
pub open spec fn with_range_mapped(m: Map<usize, u8>, lo: nat, hi: nat, flags: u8) -> Map<usize, u8> {
    Map::new(
        |vpn: usize| m.contains_key(vpn) || in_range(vpn, lo, hi),
        |vpn: usize| if in_range(vpn, lo, hi) { flags } else { m[vpn] },
    )
}

/// `m` with every page of `lo..hi` unmapped.
pub open spec fn with_range_unmapped(m: Map<usize, u8>, lo: nat, hi: nat) -> Map<usize, u8> {
    Map::new(|vpn: usize| m.contains_key(vpn) && !in_range(vpn, lo, hi), |vpn: usize| m[vpn])
}

/// One entry of a page table: the physical frame a page is mapped to, and
/// the entry's flags.
#[derive(Clone, Copy, Debug, PartialEq, Eq, Structural)]
pub struct PageTableEntry {
    pub ppn: usize,
    pub flags: u8,
}

/// The address space of one task: a page table from virtual page numbers to
/// their entries.
pub struct MemorySet {
    page_table: BTreeMap<usize, PageTableEntry>,
}

impl View for MemorySet {
    type V = Map<usize, u8>;

    /// The flags of every mapped page.
    closed spec fn view(&self) -> Map<usize, u8> {
        self.page_table@.map_values(|e: PageTableEntry| e.flags)
    }
}

impl MemorySet {
    /// The physical frame of every mapped page.
    pub closed spec fn frames(&self) -> Map<usize, usize> {
        self.page_table@.map_values(|e: PageTableEntry| e.ppn)
    }

    /// The pages that have a frame are exactly the mapped pages.
    pub broadcast proof fn lemma_frames_dom(ms: MemorySet)
        ensures
            #[trigger] ms.frames().dom() == ms@.dom(),
    {
        assert(ms.frames().dom() =~= ms@.dom());
    }

    /// An address space with no page mapped.
    pub fn new_bare() -> (ms: MemorySet)
        ensures
            ms@ == Map::<usize, u8>::empty(),
            ms.frames() == Map::<usize, usize>::empty(),
    {
        let ms = MemorySet { page_table: BTreeMap::new() };
        assert(ms@ =~= Map::<usize, u8>::empty());
        assert(ms.frames() =~= Map::<usize, usize>::empty());
        ms
    }

    /// Whether the page `vpn` is mapped.
    pub fn vaddr_mapped(&self, vpn: VirtPageNum) -> (b: bool)
        ensures
            b == self@.contains_key(vpn.0),
    {
        self.page_table.contains_key(&vpn.0)
    }

    /// The flags of the entry of page `vpn`, if it is mapped.
    pub fn translate(&self, vpn: VirtPageNum) -> (r: Option<u8>)
        ensures
            r == (if self@.contains_key(vpn.0) { Some(self@[vpn.0]) } else { None::<u8> }),
    {
        match self.page_table.get(&vpn.0) {
            Some(e) => Some(e.flags),
            None => None,
        }
    }

    /// The physical frame of page `vpn`, if it is mapped.
    pub fn frame_of(&self, vpn: VirtPageNum) -> (r: Option<usize>)
        ensures
            r == (if self@.contains_key(vpn.0) { Some(self.frames()[vpn.0]) } else { None::<usize> }),
    {
        match self.page_table.get(&vpn.0) {
            Some(e) => Some(e.ppn),
            None => None,
        }
    }

    /// Maps page `vpn`, which must not be mapped yet, to frame `ppn` with `flags`.
    pub fn map(&mut self, vpn: usize, ppn: usize, flags: u8)
        requires
            !old(self)@.contains_key(vpn),
        ensures
            final(self)@ == old(self)@.insert(vpn, flags),
            final(self).frames() == old(self).frames().insert(vpn, ppn),
    {
        self.page_table.insert(vpn, PageTableEntry { ppn, flags });
        assert(self@ =~= old(self)@.insert(vpn, flags));
        assert(self.frames() =~= old(self).frames().insert(vpn, ppn));
    }

    /// Unmaps page `vpn`, which must be mapped, and returns its frame.
    pub fn unmap(&mut self, vpn: usize) -> (ppn: usize)
        requires
            old(self)@.contains_key(vpn),
        ensures
            ppn == old(self).frames()[vpn],
            final(self)@ == old(self)@.remove(vpn),
            final(self).frames() == old(self).frames().remove(vpn),
    {
        let e = *self.page_table.get(&vpn).unwrap();
        self.page_table.remove(&vpn);
        assert(self@ =~= old(self)@.remove(vpn));
        assert(self.frames() =~= old(self).frames().remove(vpn));
        e.ppn
    }

    /// Every mapped page, each once.
    pub fn mapped_pages(&self) -> (v: Vec<usize>)
        ensures
            v@.to_set() == self@.dom(),
            v@.no_duplicates(),
    {
        let mut v: Vec<usize> = Vec::new();
        let ghost all = vstd::std_specs::btree::spec_keys_iter(&self.page_table).remaining();
        for k in it: self.page_table.keys()
            invariant
                it.seq() == all,
                v@ == it.seq().take(it.index() as int).map_values(|r: &usize| *r),
        {
            v.push(*k);
        }
        assert(v@ =~= all.map_values(|r: &usize| *r));
        assert(all.unref() == all.map_values(|r: &usize| *r));
        assert(self@.dom() =~= self.page_table@.dom());
        v
    }
}

} // verus!
