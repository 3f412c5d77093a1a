//! The allocator of physical page frames: a stack of recycled frames in
//! front of a range of frames never handed out yet.

use vstd::prelude::*;

verus! {

/// Hands out physical page numbers: first the most recently given back one,
/// then fresh ones from `current` up to `end`.
pub struct FrameAllocator {
    current: usize,
    end: usize,
    recycled: Vec<usize>,
}

impl FrameAllocator {
    /// Recycled frames are distinct and were handed out before; fresh frames
    /// lie in `current..end`.
    pub closed spec fn wf(self) -> bool {
        &&& self.current <= self.end
        &&& self.recycled@.no_duplicates()
        &&& forall|i: int| 0 <= i < self.recycled@.len() ==> #[trigger] self.recycled@[i] < self.current
    }

    /// The frames given back, the most recent last.
    pub closed spec fn recycled_frames(self) -> Seq<usize> {
        self.recycled@
    }

    /// The next frame never handed out before.
    pub closed spec fn next_fresh(self) -> usize {
        self.current
    }

    /// The end of the frames this allocator hands out.
    pub closed spec fn frame_end(self) -> usize {
        self.end
    }

    /// Whether frame `ppn` is in use: handed out and not given back.
    pub closed spec fn allocated(self, ppn: usize) -> bool {
        ppn < self.current && !self.recycled@.contains(ppn)
    }

    /// How many frames can still be handed out.
    pub closed spec fn free_count(self) -> nat {
        self.recycled@.len() + (self.end - self.current) as nat
    }

    /// The frames an allocator can still hand out are its recycled frames
    /// and the fresh ones from `next_fresh` up to `frame_end`; a frame is in
    /// use when it lies below `next_fresh` and was not given back.
    pub proof fn law_free_frames_are_recycled_and_fresh(self)
        requires
            self.wf(),
        ensures
            self.next_fresh() <= self.frame_end(),
            self.free_count() == self.recycled_frames().len() + self.frame_end() - self.next_fresh(),
            forall|ppn: usize|
                #[trigger] self.allocated(ppn) <==> ppn < self.next_fresh()
                    && !self.recycled_frames().contains(ppn),
            forall|i: int|
                0 <= i < self.recycled_frames().len() ==> !self.allocated(
                    #[trigger] self.recycled_frames()[i],
                ),
    {
    }

    /// An allocator that hands out the frames `start..end`; the frames below
    /// `start` count as in use.
    pub fn new(start: usize, end: usize) -> (fa: FrameAllocator)
        requires
            start <= end,
        ensures
            fa.wf(),
            fa.free_count() == end - start,
            fa.recycled_frames() == Seq::<usize>::empty(),
            fa.next_fresh() == start,
            fa.frame_end() == end,
            forall|ppn: usize| #[trigger] fa.allocated(ppn) <==> ppn < start,
    {
        FrameAllocator { current: start, end, recycled: Vec::new() }
    }

    /// Hands out a frame that is not in use, or `None` when every frame is.
    pub fn frame_alloc(&mut self) -> (r: Option<usize>)
        requires
            old(self).wf(),
        ensures
            final(self).wf(),
            r is None <==> old(self).free_count() == 0,
            final(self).frame_end() == old(self).frame_end(),
            old(self).recycled_frames().len() > 0 ==> {
                &&& r == Some(old(self).recycled_frames().last())
                &&& final(self).recycled_frames() == old(self).recycled_frames().drop_last()
                &&& final(self).next_fresh() == old(self).next_fresh()
            },
            old(self).recycled_frames().len() == 0 && old(self).next_fresh() < old(self).frame_end() ==> {
                &&& r == Some(old(self).next_fresh())
                &&& final(self).recycled_frames() == old(self).recycled_frames()
                &&& final(self).next_fresh() == old(self).next_fresh() + 1
            },
            r is None ==> final(self).free_count() == 0 && forall|q: usize|
                #[trigger] final(self).allocated(q) == old(self).allocated(q),
            r matches Some(ppn) ==> {
                &&& !old(self).allocated(ppn)
                &&& final(self).allocated(ppn)
                &&& final(self).free_count() + 1 == old(self).free_count()
                &&& forall|q: usize| q != ppn ==> #[trigger] final(self).allocated(q) == old(self).allocated(q)
            },
    {
        if let Some(ppn) = self.recycled.pop() {
            proof {
                let s = old(self).recycled@;
                assert(s[s.len() - 1] == ppn);
                assert(self.recycled@ =~= s.drop_last());
                assert(s =~= self.recycled@.push(ppn));
                assert(s.contains(ppn));
                assert(!self.recycled@.contains(ppn)) by {
                    if self.recycled@.contains(ppn) {
                        let j = choose|j: int| 0 <= j < self.recycled@.len() && self.recycled@[j] == ppn;
                        assert(s[j] == s[s.len() - 1]);
                    }
                }
                assert forall|q: usize| q != ppn implies #[trigger] self.recycled@.contains(q)
                    == s.contains(q) by {
                    if s.contains(q) {
                        let j = choose|j: int| 0 <= j < s.len() && s[j] == q;
                        assert(self.recycled@[j] == q);
                    }
                    if self.recycled@.contains(q) {
                        let j = choose|j: int| 0 <= j < self.recycled@.len() && self.recycled@[j] == q;
                        assert(s[j] == q);
                    }
                }
                assert forall|i: int| 0 <= i < self.recycled@.len() implies #[trigger] self.recycled@[i]
                    < self.current by {
                    assert(self.recycled@[i] == s[i]);
                }
                assert(self.recycled@.no_duplicates()) by {
                    assert forall|i: int, j: int|
                        0 <= i < self.recycled@.len() && 0 <= j < self.recycled@.len() && i != j implies
                        self.recycled@[i] != self.recycled@[j] by {
                        assert(self.recycled@[i] == s[i]);
                        assert(self.recycled@[j] == s[j]);
                    }
                }
            }
            Some(ppn)
        } else if self.current == self.end {
            None
        } else {
            self.current = self.current + 1;
            proof {
                assert(!self.recycled@.contains((self.current - 1) as usize)) by {
                    if self.recycled@.contains((self.current - 1) as usize) {
                        let j = choose|j: int| 0 <= j < self.recycled@.len() && self.recycled@[j] == (self.current - 1) as usize;
                        assert(old(self).recycled@[j] < old(self).current);
                    }
                }
            }
            Some(self.current - 1)
        }
    }

    /// Takes back frame `ppn`, which must be in use.
    pub fn frame_dealloc(&mut self, ppn: usize)
        requires
            old(self).wf(),
            old(self).allocated(ppn),
        ensures
            final(self).wf(),
            !final(self).allocated(ppn),
            final(self).free_count() == old(self).free_count() + 1,
            final(self).recycled_frames() == old(self).recycled_frames().push(ppn),
            final(self).next_fresh() == old(self).next_fresh(),
            final(self).frame_end() == old(self).frame_end(),
            forall|q: usize| q != ppn ==> #[trigger] final(self).allocated(q) == old(self).allocated(q),
    {
        self.recycled.push(ppn);
        proof {
            let s = old(self).recycled@;
            assert(self.recycled@[s.len() as int] == ppn);
            assert forall|q: usize| q != ppn implies #[trigger] self.recycled@.contains(q)
                == s.contains(q) by {
                if s.contains(q) {
                    let j = choose|j: int| 0 <= j < s.len() && s[j] == q;
                    assert(self.recycled@[j] == q);
                }
                if self.recycled@.contains(q) {
                    let j = choose|j: int| 0 <= j < self.recycled@.len() && self.recycled@[j] == q;
                    assert(s[j] == q);
                }
            }
            assert forall|i: int| 0 <= i < self.recycled@.len() implies #[trigger] self.recycled@[i]
                < self.current by {
                if i < s.len() {
                    assert(self.recycled@[i] == s[i]);
                }
            }
            assert(self.recycled@.no_duplicates()) by {
                assert forall|i: int, j: int|
                    0 <= i < self.recycled@.len() && 0 <= j < self.recycled@.len() && i != j implies
                    self.recycled@[i] != self.recycled@[j] by {
                    if i < s.len() && j < s.len() {
                        assert(self.recycled@[i] == s[i]);
                        assert(self.recycled@[j] == s[j]);
                    } else if i < s.len() {
                        assert(self.recycled@[i] == s[i]);
                        assert(s.contains(s[i]));
                    } else {
                        assert(self.recycled@[j] == s[j]);
                        assert(s.contains(s[j]));
                    }
                }
            }
        }
    }

    /// How many frames can still be handed out (at most `usize::MAX`).
    pub fn free_frames(&self) -> (n: usize)
        requires
            self.wf(),
        ensures
            n == (if self.free_count() <= usize::MAX { self.free_count() } else { usize::MAX as nat }),
    {
        self.recycled.len().saturating_add(self.end - self.current)
    }
}

} // verus!
