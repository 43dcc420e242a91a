use vstd::prelude::*;

use crate::shared::FrameId;

verus! {

/// `s` with every occurrence of `f` left out, order kept.
pub open spec fn without(s: Seq<FrameId>, f: FrameId) -> Seq<FrameId>
    decreases s.len(),
{
    if s.len() == 0 {
        Seq::empty()
    } else {
        let rest = without(s.drop_last(), f);
        if s.last() == f {
            rest
        } else {
            rest.push(s.last())
        }
    }
}

/// A classic least-recently-used replacer: unpinned frames queue in the order in
/// which they were released, and the victim is the one released longest ago.
pub struct LruReplacer {
    queue: Vec<FrameId>,
}

impl View for LruReplacer {
    type V = Seq<FrameId>;

    closed spec fn view(&self) -> Seq<FrameId> {
        self.queue@
    }
}

impl LruReplacer {
    /// An empty replacer.
    pub fn new() -> (r: Self)
        ensures
            r@ == Seq::<FrameId>::empty(),
    {
        LruReplacer { queue: Vec::new() }
    }

    /// Makes the frame a candidate, as the most recently released; a frame already
    /// waiting keeps its place.
    pub fn unpin(&mut self, frame_id: FrameId)
        ensures
            old(self)@.contains(frame_id) ==> final(self)@ == old(self)@,
            !old(self)@.contains(frame_id) ==> final(self)@ == old(self)@.push(frame_id),
    {
        let mut i: usize = 0;
        while i < self.queue.len()
            invariant
                i <= self@.len(),
                self@ == old(self)@,
                forall|j: int| 0 <= j < i ==> self@[j] != frame_id,
            decreases self@.len() - i,
        {
            if self.queue[i] == frame_id {
                return;
            }
            i = i + 1;
        }
        self.queue.push(frame_id);
    }

    /// Withdraws the frame from candidacy.
    pub fn pin(&mut self, frame_id: FrameId)
        ensures
            final(self)@ == without(old(self)@, frame_id),
    {
        let mut kept: Vec<FrameId> = Vec::new();
        let mut i: usize = 0;
        while i < self.queue.len()
            invariant
                i <= self@.len(),
                self@ == old(self)@,
                kept@ == without(self@.subrange(0, i as int), frame_id),
            decreases self@.len() - i,
        {
            let x = self.queue[i];
            if x != frame_id {
                kept.push(x);
            }
            proof {
                let s = self@.subrange(0, i + 1);
                assert(s.drop_last() =~= self@.subrange(0, i as int));
            }
            i = i + 1;
        }
        proof {
            assert(self@.subrange(0, i as int) =~= self@);
        }
        self.queue = kept;
    }

    /// Removes and returns the frame released longest ago; `None` when there is
    /// no candidate.
    pub fn victim(&mut self) -> (r: Option<FrameId>)
        ensures
            old(self)@.len() == 0 ==> r is None && final(self)@ == old(self)@,
            old(self)@.len() > 0 ==> r == Some(old(self)@[0]) && final(self)@ == old(self)@.subrange(
                1,
                old(self)@.len() as int,
            ),
    {
        if self.queue.len() == 0 {
            None
        } else {
            Some(self.queue.remove(0))
        }
    }

    /// Number of candidates.
    pub fn size(&self) -> (r: usize)
        ensures
            r == self@.len(),
    {
        self.queue.len()
    }
}

} // verus!
