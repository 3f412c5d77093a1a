//! The running task's address space as the kernel changes it: pages are
//! mapped to frames taken from the frame allocator, and unmapping gives
//! the frames back.

use vstd::prelude::*;
use crate::address::{spec_ceil, spec_floor, VirtAddr};
use crate::memory_set::{
    in_range, range_mapped, range_unmapped, with_range_mapped, with_range_unmapped, MapPermission,
    PTE_V,
};
use crate::task::{
    frame_in_use, frames_wf, heap_move_allowed, lemma_free_frame_not_in_use, heap_moved, lemma_memory_change_keeps_wf, only_current_memory_changed,
    page_frame, page_mapped, spec_new_brk, Kernel, HEAP_PTE_FLAGS,
};

verus! {

broadcast use crate::memory_set::MemorySet::lemma_frames_dom, vstd::seq_lib::group_seq_properties;

/// What the mapping calls promise of the frames: the pages mapped before
/// keep their frames, each new page of `lo..hi` gets a frame the allocator
/// held free, and every frame in use stays in use.
pub open spec fn frames_after_map(old: Kernel, new: Kernel, lo: nat, hi: nat) -> bool {
    &&& forall|v: usize|
        #[trigger] old.current_memory().contains_key(v) ==> new.current_frames()[v]
            == old.current_frames()[v]
    &&& forall|v: usize|
        #[trigger] in_range(v, lo, hi) ==> !old.frame_allocator.allocated(new.current_frames()[v])
    &&& forall|q: usize|
        #[trigger] old.frame_allocator.allocated(q) ==> new.frame_allocator.allocated(q)
    &&& new.frame_allocator.free_count() + (hi - lo) == old.frame_allocator.free_count()
}

/// What the unmapping calls promise of the frames: the pages left keep
/// their frames, the frame of each page of `lo..hi` goes back to the
/// allocator, and no other frame is taken.
pub open spec fn frames_after_unmap(old: Kernel, new: Kernel, lo: nat, hi: nat) -> bool {
    &&& forall|v: usize|
        #[trigger] new.current_memory().contains_key(v) ==> new.current_frames()[v]
            == old.current_frames()[v]
    &&& forall|v: usize|
        #[trigger] in_range(v, lo, hi) ==> !new.frame_allocator.allocated(old.current_frames()[v])
    &&& forall|q: usize|
        #[trigger] new.frame_allocator.allocated(q) ==> old.frame_allocator.allocated(q)
    &&& new.frame_allocator.free_count() == old.frame_allocator.free_count() + (hi - lo)
}

/// Every page of `lo..hi` of the running task is backed by a frame that no
/// page of any task used before, and no two of these pages share a frame.
pub open spec fn fresh_frames(old: Kernel, new: Kernel, lo: nat, hi: nat) -> bool {
    &&& forall|v: usize|
        #[trigger] in_range(v, lo, hi) ==> !frame_in_use(old.tasks@, new.current_frames()[v])
    &&& forall|v1: usize, v2: usize|
        #![trigger in_range(v1, lo, hi), in_range(v2, lo, hi)]
        in_range(v1, lo, hi) && in_range(v2, lo, hi) && v1 != v2 ==> new.current_frames()[v1]
            != new.current_frames()[v2]
}

/// The frames that a mapping call took were free before, so no page used
/// them, and frame bookkeeping keeps them apart.
proof fn lemma_fresh_frames(old: Kernel, new: Kernel, lo: nat, hi: nat)
    requires
        old.wf(),
        new.wf(),
        old.current_running(),
        new.current_running(),
        new.cur() == old.cur(),
        frames_after_map(old, new, lo, hi),
        range_mapped(new.current_memory(), lo, hi),
    ensures
        fresh_frames(old, new, lo, hi),
{
    let c = old.cur();
    assert forall|v: usize| #[trigger] in_range(v, lo, hi) implies !frame_in_use(
        old.tasks@,
        new.current_frames()[v],
    ) by {
        lemma_free_frame_not_in_use(old.tasks@, old.frame_allocator, new.current_frames()[v]);
    }
    assert forall|v1: usize, v2: usize|
        #![trigger in_range(v1, lo, hi), in_range(v2, lo, hi)]
        in_range(v1, lo, hi) && in_range(v2, lo, hi) && v1 != v2 implies new.current_frames()[v1]
        != new.current_frames()[v2] by {
        assert(page_mapped(new.tasks@, c, v1));
        assert(page_mapped(new.tasks@, c, v2));
        assert(page_frame(new.tasks@, c, v1) == new.current_frames()[v1]);
        assert(page_frame(new.tasks@, c, v2) == new.current_frames()[v2]);
    }
}

impl Kernel {
    /// Maps page `vpn` of the running task, which must be unmapped, with
    /// `flags` to a frame taken from the allocator; returns the frame.
    fn map_page(&mut self, vpn: usize, flags: u8) -> (ppn: usize)
        requires
            old(self).wf(),
            old(self).current_running(),
            !old(self).current_memory().contains_key(vpn),
            old(self).frame_allocator.free_count() > 0,
        ensures
            final(self).wf(),
            final(self).current_running(),
            only_current_memory_changed(*old(self), *final(self)),
            final(self).tasks@[old(self).cur()].program_brk == old(self).tasks@[old(self).cur()].program_brk,
            final(self).current_memory() == old(self).current_memory().insert(vpn, flags),
            final(self).current_frames() == old(self).current_frames().insert(vpn, ppn),
            !old(self).frame_allocator.allocated(ppn),
            final(self).frame_allocator.allocated(ppn),
            forall|q: usize|
                q != ppn ==> #[trigger] final(self).frame_allocator.allocated(q) == old(self).frame_allocator.allocated(q),
            final(self).frame_allocator.free_count() + 1 == old(self).frame_allocator.free_count(),
    {
        let cur = self.current.unwrap();
        let ppn = self.frame_allocator.frame_alloc().unwrap();
        self.tasks[cur].memory_set.map(vpn, ppn, flags);
        proof {
            let t0 = old(self).tasks@;
            let t1 = self.tasks@;
            let fa0 = old(self).frame_allocator;
            let fa = self.frame_allocator;
            let c = cur as int;
            assert(t0[c].wf());
            assert forall|p: int, v: usize|
                #[trigger] page_mapped(t1, p, v) && !(p == c && v == vpn) implies page_mapped(t0, p, v)
                && page_frame(t1, p, v) == page_frame(t0, p, v) && fa0.allocated(
                page_frame(t0, p, v),
            ) by {
                if p != c {
                    assert(t1[p] == t0[p]);
                }
            }
            assert(page_frame(t1, c, vpn) == ppn);
            assert forall|p: int, v: usize| #[trigger] page_mapped(t1, p, v) implies fa.allocated(
                page_frame(t1, p, v),
            ) by {
                if !(p == c && v == vpn) {
                    assert(page_frame(t0, p, v) != ppn);
                }
            }
            assert forall|p1: int, v1: usize, p2: int, v2: usize|
                page_mapped(t1, p1, v1) && page_mapped(t1, p2, v2) && #[trigger] page_frame(
                    t1,
                    p1,
                    v1,
                ) == #[trigger] page_frame(t1, p2, v2) implies p1 == p2 && v1 == v2 by {
                if !(p1 == c && v1 == vpn) && !(p2 == c && v2 == vpn) {
                    assert(page_frame(t0, p1, v1) == page_frame(t0, p2, v2));
                } else if !(p1 == c && v1 == vpn) {
                    assert(fa0.allocated(page_frame(t0, p1, v1)));
                } else if !(p2 == c && v2 == vpn) {
                    assert(fa0.allocated(page_frame(t0, p2, v2)));
                }
            }
            assert(frames_wf(t1, fa));
            lemma_memory_change_keeps_wf(*old(self), *self);
        }
        ppn
    }

    /// Unmaps page `vpn` of the running task, which must be mapped, and
    /// gives its frame back to the allocator; returns the frame.
    fn unmap_page(&mut self, vpn: usize) -> (ppn: usize)
        requires
            old(self).wf(),
            old(self).current_running(),
            old(self).current_memory().contains_key(vpn),
        ensures
            final(self).wf(),
            final(self).current_running(),
            only_current_memory_changed(*old(self), *final(self)),
            final(self).tasks@[old(self).cur()].program_brk == old(self).tasks@[old(self).cur()].program_brk,
            ppn == old(self).current_frames()[vpn],
            final(self).current_memory() == old(self).current_memory().remove(vpn),
            final(self).current_frames() == old(self).current_frames().remove(vpn),
            old(self).frame_allocator.allocated(ppn),
            !final(self).frame_allocator.allocated(ppn),
            forall|q: usize|
                q != ppn ==> #[trigger] final(self).frame_allocator.allocated(q) == old(self).frame_allocator.allocated(q),
            final(self).frame_allocator.free_count() == old(self).frame_allocator.free_count() + 1,
    {
        let cur = self.current.unwrap();
        let ghost c = cur as int;
        assert(page_mapped(old(self).tasks@, c, vpn));
        let ppn = self.tasks[cur].memory_set.unmap(vpn);
        self.frame_allocator.frame_dealloc(ppn);
        proof {
            let t0 = old(self).tasks@;
            let t1 = self.tasks@;
            let fa0 = old(self).frame_allocator;
            let fa = self.frame_allocator;
            assert(t0[c].wf());
            assert forall|p: int, v: usize| #[trigger] page_mapped(t1, p, v) implies page_mapped(
                t0,
                p,
                v,
            ) && page_frame(t1, p, v) == page_frame(t0, p, v) && !(p == c && v == vpn) by {
                if p != c {
                    assert(t1[p] == t0[p]);
                }
            }
            assert forall|p: int, v: usize| #[trigger] page_mapped(t1, p, v) implies fa.allocated(
                page_frame(t1, p, v),
            ) by {
                assert(page_frame(t0, p, v) != page_frame(t0, c, vpn));
            }
            assert forall|p1: int, v1: usize, p2: int, v2: usize|
                page_mapped(t1, p1, v1) && page_mapped(t1, p2, v2) && #[trigger] page_frame(
                    t1,
                    p1,
                    v1,
                ) == #[trigger] page_frame(t1, p2, v2) implies p1 == p2 && v1 == v2 by {
                assert(page_frame(t0, p1, v1) == page_frame(t0, p2, v2));
            }
            assert(frames_wf(t1, fa));
            lemma_memory_change_keeps_wf(*old(self), *self);
        }
        ppn
    }

    /// Maps every page of `lo..hi` of the running task, none of which may be
    /// mapped yet, with `flags`, each to a frame taken from the allocator.
    fn map_area(&mut self, lo: usize, hi: usize, flags: u8)
        requires
            old(self).wf(),
            old(self).current_running(),
            lo <= hi,
            range_unmapped(old(self).current_memory(), lo as nat, hi as nat),
            old(self).frame_allocator.free_count() >= hi - lo,
        ensures
            final(self).wf(),
            final(self).current_running(),
            only_current_memory_changed(*old(self), *final(self)),
            final(self).tasks@[old(self).cur()].program_brk == old(self).tasks@[old(self).cur()].program_brk,
            final(self).current_memory() == with_range_mapped(
                old(self).current_memory(),
                lo as nat,
                hi as nat,
                flags,
            ),
            frames_after_map(*old(self), *final(self), lo as nat, hi as nat),
    {
        let ghost k0 = *self;
        let mut vpn = lo;
        while vpn < hi
            invariant
                lo <= vpn <= hi,
                k0 == *old(self),
                k0.wf(),
                k0.current_running(),
                range_unmapped(k0.current_memory(), lo as nat, hi as nat),
                k0.frame_allocator.free_count() >= hi - lo,
                self.wf(),
                self.current_running(),
                self.cur() == k0.cur(),
                only_current_memory_changed(k0, *self),
                self.tasks@[k0.cur()].program_brk == k0.tasks@[k0.cur()].program_brk,
                self.current_memory() == with_range_mapped(
                    k0.current_memory(),
                    lo as nat,
                    vpn as nat,
                    flags,
                ),
                frames_after_map(k0, *self, lo as nat, vpn as nat),
            decreases hi - vpn,
        {
            let ghost k1 = *self;
            assert(in_range(vpn, lo as nat, hi as nat));
            let ppn = self.map_page(vpn, flags);
            vpn = vpn + 1;
            proof {
                assert(self.current_memory() =~= with_range_mapped(
                    k0.current_memory(),
                    lo as nat,
                    vpn as nat,
                    flags,
                ));
                assert forall|p: int|
                    0 <= p < k0.tasks@.len() && p != k0.cur() implies #[trigger] self.tasks@[p]
                    == k0.tasks@[p] by {
                    assert(self.tasks@[p] == k1.tasks@[p]);
                }
                assert forall|v: usize| #[trigger] in_range(v, lo as nat, vpn as nat) implies !k0.frame_allocator.allocated(
                    self.current_frames()[v],
                ) by {
                    if v != vpn - 1 {
                        assert(in_range(v, lo as nat, (vpn - 1) as nat));
                        assert(k1.current_memory().contains_key(v));
                    }
                }
                assert forall|v: usize| #[trigger] k0.current_memory().contains_key(v) implies self.current_frames()[v]
                    == k0.current_frames()[v] by {
                    assert(k1.current_memory().contains_key(v));
                    if v == vpn - 1 {
                        assert(in_range(v, lo as nat, hi as nat));
                    }
                }
                assert forall|q: usize| #[trigger] k0.frame_allocator.allocated(q) implies self.frame_allocator.allocated(q) by {
                    assert(k1.frame_allocator.allocated(q));
                }
            }
        }
    }

    /// Unmaps every page of `lo..hi` of the running task, all of which must
    /// be mapped, and gives their frames back to the allocator.
    fn unmap_area(&mut self, lo: usize, hi: usize)
        requires
            old(self).wf(),
            old(self).current_running(),
            lo <= hi,
            range_mapped(old(self).current_memory(), lo as nat, hi as nat),
        ensures
            final(self).wf(),
            final(self).current_running(),
            only_current_memory_changed(*old(self), *final(self)),
            final(self).tasks@[old(self).cur()].program_brk == old(self).tasks@[old(self).cur()].program_brk,
            final(self).current_memory() == with_range_unmapped(
                old(self).current_memory(),
                lo as nat,
                hi as nat,
            ),
            frames_after_unmap(*old(self), *final(self), lo as nat, hi as nat),
    {
        let ghost k0 = *self;
        let mut vpn = lo;
        while vpn < hi
            invariant
                lo <= vpn <= hi,
                k0 == *old(self),
                k0.wf(),
                k0.current_running(),
                range_mapped(k0.current_memory(), lo as nat, hi as nat),
                self.wf(),
                self.current_running(),
                self.cur() == k0.cur(),
                only_current_memory_changed(k0, *self),
                self.tasks@[k0.cur()].program_brk == k0.tasks@[k0.cur()].program_brk,
                self.current_memory() == with_range_unmapped(
                    k0.current_memory(),
                    lo as nat,
                    vpn as nat,
                ),
                frames_after_unmap(k0, *self, lo as nat, vpn as nat),
            decreases hi - vpn,
        {
            let ghost k1 = *self;
            assert(in_range(vpn, lo as nat, hi as nat));
            assert(k1.current_memory().contains_key(vpn));
            let ghost f = k0.current_frames()[vpn];
            let ppn = self.unmap_page(vpn);
            vpn = vpn + 1;
            proof {
                assert(self.current_memory() =~= with_range_unmapped(
                    k0.current_memory(),
                    lo as nat,
                    vpn as nat,
                ));
                assert forall|p: int|
                    0 <= p < k0.tasks@.len() && p != k0.cur() implies #[trigger] self.tasks@[p]
                    == k0.tasks@[p] by {
                    assert(self.tasks@[p] == k1.tasks@[p]);
                }
                assert(ppn == f);
                assert forall|v: usize| #[trigger] in_range(v, lo as nat, vpn as nat) implies !self.frame_allocator.allocated(
                    k0.current_frames()[v],
                ) by {
                    if v != vpn - 1 {
                        assert(in_range(v, lo as nat, (vpn - 1) as nat));
                    }
                }
                assert forall|v: usize| #[trigger] self.current_memory().contains_key(v) implies self.current_frames()[v]
                    == k0.current_frames()[v] by {
                    assert(k1.current_memory().contains_key(v));
                }
                assert forall|q: usize| #[trigger] self.frame_allocator.allocated(q) implies k0.frame_allocator.allocated(q) by {
                    assert(k1.frame_allocator.allocated(q));
                }
            }
        }
    }

    /// Unmaps every page of the running task and gives all their frames
    /// back to the allocator.
    pub(crate) fn release_current_pages(&mut self)
        requires
            old(self).wf(),
            old(self).current_running(),
        ensures
            final(self).wf(),
            final(self).current_running(),
            only_current_memory_changed(*old(self), *final(self)),
            final(self).tasks@[old(self).cur()].program_brk == old(self).tasks@[old(self).cur()].program_brk,
            final(self).current_memory() == Map::<usize, u8>::empty(),
            forall|v: usize|
                #[trigger] old(self).current_memory().contains_key(v) ==> !final(self).frame_allocator.allocated(old(self).current_frames()[v]),
            forall|q: usize|
                #[trigger] final(self).frame_allocator.allocated(q) ==> old(self).frame_allocator.allocated(q),
            final(self).frame_allocator.free_count() == old(self).frame_allocator.free_count()
                + old(self).current_memory().dom().len(),
    {
        let ghost k0 = *self;
        let cur = self.current.unwrap();
        let pages = self.tasks[cur].memory_set.mapped_pages();
        proof {
            pages@.unique_seq_to_set();
        }
        let mut i: usize = 0;
        while i < pages.len()
            invariant
                0 <= i <= pages@.len(),
                k0 == *old(self),
                k0.wf(),
                k0.current_running(),
                cur == k0.cur(),
                pages@.to_set() == k0.current_memory().dom(),
                pages@.no_duplicates(),
                pages@.len() == k0.current_memory().dom().len(),
                self.wf(),
                self.current_running(),
                self.cur() == k0.cur(),
                only_current_memory_changed(k0, *self),
                self.tasks@[k0.cur()].program_brk == k0.tasks@[k0.cur()].program_brk,
                forall|v: usize|
                    #[trigger] self.current_memory().contains_key(v) <==> (
                    k0.current_memory().contains_key(v) && !pages@.subrange(0, i as int).contains(v)),
                forall|v: usize|
                    #[trigger] self.current_memory().contains_key(v) ==> self.current_frames()[v]
                        == k0.current_frames()[v],
                forall|j: int|
                    0 <= j < i ==> !self.frame_allocator.allocated(
                        #[trigger] k0.current_frames()[pages@[j]],
                    ),
                forall|q: usize|
                    #[trigger] self.frame_allocator.allocated(q) ==> k0.frame_allocator.allocated(q),
                self.frame_allocator.free_count() == k0.frame_allocator.free_count() + i,
            decreases pages@.len() - i,
        {
            let vpn = pages[i];
            let ghost k1 = *self;
            proof {
                assert(pages@.to_set().contains(vpn));
                if pages@.subrange(0, i as int).contains(vpn) {
                    let j = choose|j: int| 0 <= j < i && pages@.subrange(0, i as int)[j] == vpn;
                    assert(pages@[j] == pages@[i as int]);
                }
            }
            let ppn = self.unmap_page(vpn);
            i = i + 1;
            proof {
                assert(pages@.subrange(0, i as int) =~= pages@.subrange(0, i - 1).push(vpn));
                assert forall|p: int|
                    0 <= p < k0.tasks@.len() && p != k0.cur() implies #[trigger] self.tasks@[p]
                    == k0.tasks@[p] by {
                    assert(self.tasks@[p] == k1.tasks@[p]);
                }
                assert(k1.current_memory().contains_key(vpn));
                assert(ppn == k0.current_frames()[pages@[i - 1]]);
                assert forall|j: int| 0 <= j < i implies !self.frame_allocator.allocated(
                    #[trigger] k0.current_frames()[pages@[j]],
                ) by {
                    if j < i - 1 {
                        let q = k0.current_frames()[pages@[j]];
                        if q != ppn {
                            assert(self.frame_allocator.allocated(q) == k1.frame_allocator.allocated(q));
                        }
                        assert(!k1.frame_allocator.allocated(k0.current_frames()[pages@[j]]));
                    }
                }
                assert forall|q: usize| #[trigger] self.frame_allocator.allocated(q) implies k0.frame_allocator.allocated(q) by {
                    assert(k1.frame_allocator.allocated(q));
                }
            }
        }
        proof {
            assert(pages@.subrange(0, pages@.len() as int) =~= pages@);
            assert(self.current_memory() =~= Map::<usize, u8>::empty()) by {
                assert forall|v: usize| !#[trigger] self.current_memory().contains_key(v) by {
                    if k0.current_memory().contains_key(v) {
                        assert(pages@.to_set().contains(v));
                    }
                }
            }
            assert forall|v: usize| #[trigger] k0.current_memory().contains_key(v) implies !self.frame_allocator.allocated(
                k0.current_frames()[v],
            ) by {
                assert(pages@.to_set().contains(v));
                let j = choose|j: int| 0 <= j < pages@.len() && pages@[j] == v;
                assert(!self.frame_allocator.allocated(k0.current_frames()[pages@[j]]));
            }
        }
    }

    /// Maps the area from `start_va` to `end_va` with `perm` into the
    /// running task's address space, each page to a frame taken from the
    /// allocator.
    pub fn insert_map(&mut self, start_va: VirtAddr, end_va: VirtAddr, perm: MapPermission)
        requires
            old(self).wf(),
            old(self).current_running(),
            spec_floor(start_va.0 as nat) <= spec_ceil(end_va.0 as nat),
            range_unmapped(
                old(self).current_memory(),
                spec_floor(start_va.0 as nat),
                spec_ceil(end_va.0 as nat),
            ),
            old(self).frame_allocator.free_count() >= spec_ceil(end_va.0 as nat) - spec_floor(
                start_va.0 as nat,
            ),
        ensures
            final(self).wf(),
            final(self).current_running(),
            only_current_memory_changed(*old(self), *final(self)),
            final(self).tasks@[old(self).cur()].program_brk == old(self).tasks@[old(self).cur()].program_brk,
            final(self).current_memory() == with_range_mapped(
                old(self).current_memory(),
                spec_floor(start_va.0 as nat),
                spec_ceil(end_va.0 as nat),
                perm.bits | PTE_V,
            ),
            frames_after_map(
                *old(self),
                *final(self),
                spec_floor(start_va.0 as nat),
                spec_ceil(end_va.0 as nat),
            ),
            fresh_frames(
                *old(self),
                *final(self),
                spec_floor(start_va.0 as nat),
                spec_ceil(end_va.0 as nat),
            ),
    {
        let lo = start_va.floor();
        let hi = end_va.ceil();
        self.map_area(lo.0, hi.0, perm.pte_flags());
        proof {
            lemma_fresh_frames(*old(self), *self, lo.0 as nat, hi.0 as nat);
        }
    }

    /// Unmaps the area from `start_va` to `end_va` from the running task's
    /// address space and gives the frames back to the allocator.
    pub fn remove_map(&mut self, start_va: VirtAddr, end_va: VirtAddr)
        requires
            old(self).wf(),
            old(self).current_running(),
            spec_floor(start_va.0 as nat) <= spec_ceil(end_va.0 as nat),
            range_mapped(
                old(self).current_memory(),
                spec_floor(start_va.0 as nat),
                spec_ceil(end_va.0 as nat),
            ),
        ensures
            final(self).wf(),
            final(self).current_running(),
            only_current_memory_changed(*old(self), *final(self)),
            final(self).tasks@[old(self).cur()].program_brk == old(self).tasks@[old(self).cur()].program_brk,
            final(self).current_memory() == with_range_unmapped(
                old(self).current_memory(),
                spec_floor(start_va.0 as nat),
                spec_ceil(end_va.0 as nat),
            ),
            frames_after_unmap(
                *old(self),
                *final(self),
                spec_floor(start_va.0 as nat),
                spec_ceil(end_va.0 as nat),
            ),
    {
        let lo = start_va.floor();
        let hi = end_va.ceil();
        self.unmap_area(lo.0, hi.0);
    }

    /// Grows (positive `size`) or shrinks (negative `size`) the running
    /// task's heap by `size` bytes: the pages gained are mapped as heap pages
    /// to frames taken from the allocator, the pages lost are unmapped and
    /// their frames given back. Returns the old heap end, or `None` when the
    /// new end would fall below the heap's bottom.
    pub fn change_program_brk(&mut self, size: i32) -> (r: Option<usize>)
        requires
            old(self).wf(),
            old(self).current_running(),
            spec_new_brk(old(self).tasks@[old(self).cur()].program_brk, size) <= isize::MAX,
            spec_new_brk(old(self).tasks@[old(self).cur()].program_brk, size) >= old(self).tasks@[old(self).cur()].heap_bottom ==> heap_move_allowed(
                old(self).current_memory(),
                old(self).tasks@[old(self).cur()].program_brk as nat,
                spec_new_brk(old(self).tasks@[old(self).cur()].program_brk, size) as nat,
            ),
            size >= 0 ==> old(self).frame_allocator.free_count() >= spec_ceil(
                spec_new_brk(old(self).tasks@[old(self).cur()].program_brk, size) as nat,
            ) - spec_ceil(old(self).tasks@[old(self).cur()].program_brk as nat),
        ensures
            final(self).wf(),
            final(self).current_running(),
            only_current_memory_changed(*old(self), *final(self)),
            ({
                let t = old(self).tasks@[old(self).cur()];
                let n = final(self).tasks@[old(self).cur()];
                let new_brk = spec_new_brk(t.program_brk, size);
                &&& new_brk < t.heap_bottom ==> {
                    &&& r is None
                    &&& n.program_brk == t.program_brk
                    &&& n.memory_set == t.memory_set
                    &&& final(self).frame_allocator == old(self).frame_allocator
                }
                &&& new_brk >= t.heap_bottom ==> {
                    &&& r == Some(t.program_brk)
                    &&& n.program_brk == new_brk
                    &&& n.memory_set@ == heap_moved(
                        t.memory_set@,
                        t.program_brk as nat,
                        new_brk as nat,
                    )
                    &&& new_brk < t.program_brk ==> frames_after_unmap(
                        *old(self),
                        *final(self),
                        spec_ceil(new_brk as nat),
                        spec_ceil(t.program_brk as nat),
                    )
                    &&& new_brk >= t.program_brk ==> frames_after_map(
                        *old(self),
                        *final(self),
                        spec_ceil(t.program_brk as nat),
                        spec_ceil(new_brk as nat),
                    ) && fresh_frames(
                        *old(self),
                        *final(self),
                        spec_ceil(t.program_brk as nat),
                        spec_ceil(new_brk as nat),
                    )
                }
            }),
            ({
                let t = old(self).tasks@[old(self).cur()];
                let n = final(self).tasks@[old(self).cur()];
                &&& t.program_brk + size < t.heap_bottom ==> r is None
                &&& t.program_brk + size >= t.heap_bottom ==> r == Some(t.program_brk)
                    && n.program_brk == t.program_brk + size
            }),
    {
        let cur = self.current.unwrap();
        proof {
            assert(old(self).tasks@[cur as int].wf());
        }
        let old_break = self.tasks[cur].program_brk;
        let heap_bottom = self.tasks[cur].heap_bottom;
        let new_brk: isize = old_break as isize + size as isize;
        if new_brk < heap_bottom as isize {
            return None;
        }
        let new_end = new_brk as usize;
        let old_ceil = VirtAddr(old_break).ceil();
        let new_ceil = VirtAddr(new_end).ceil();
        if size < 0 {
            proof {
                vstd::arithmetic::div_mod::lemma_div_is_ordered(
                    new_end + 4095,
                    old_break + 4095,
                    4096,
                );
            }
            self.unmap_area(new_ceil.0, old_ceil.0);
        } else {
            proof {
                vstd::arithmetic::div_mod::lemma_div_is_ordered(
                    old_break + 4095,
                    new_end + 4095,
                    4096,
                );
            }
            self.map_area(old_ceil.0, new_ceil.0, HEAP_PTE_FLAGS);
            proof {
                lemma_fresh_frames(*old(self), *self, old_ceil.0 as nat, new_ceil.0 as nat);
            }
        }
        let ghost k1 = *self;
        self.tasks[cur].program_brk = new_end;
        proof {
            assert forall|p: int| 0 <= p < k1.tasks@.len() implies #[trigger] self.tasks@[p].memory_set
                == k1.tasks@[p].memory_set by {
                if p != cur {
                    assert(self.tasks@[p] == k1.tasks@[p]);
                }
            }
            crate::task::lemma_frames_kept(k1.tasks@, self.tasks@, self.frame_allocator);
            assert forall|p: int|
                0 <= p < old(self).tasks@.len() && p != old(self).cur() implies #[trigger] self.tasks@[p]
                == old(self).tasks@[p] by {
                assert(self.tasks@[p] == k1.tasks@[p]);
            }
            lemma_memory_change_keeps_wf(*old(self), *self);
        }
        Some(old_break)
    }
}

} // verus!
