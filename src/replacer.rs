use vstd::prelude::*;

use crate::shared::FrameId;

verus! {

/// 2^64: every finite backward k-distance ranks above every infinite one.
pub const FINITE_RANK_BASE: u128 = 0x1_0000_0000_0000_0000;

/// Eviction rank of an access history under LRU-K; the smallest rank is evicted first.
///
/// A history with fewer than `k` accesses has an infinite backward k-distance and
/// ranks by its most recent access. A history with `k` accesses ranks by its k-th
/// most recent access, after every infinite one. A smaller rank is an older
/// timestamp, that is a larger backward k-distance.
pub open spec fn evict_rank(h: Seq<u64>, k: nat) -> int {
    if h.len() < k {
        h.last() as int
    } else {
        FINITE_RANK_BASE as int + h[h.len() - k] as int
    }
}

/// The history after an access at time `ts`: the `k` most recent accesses are kept.
pub open spec fn push_history(h: Seq<u64>, ts: u64, k: nat) -> Seq<u64> {
    let p = h.push(ts);
    if p.len() > k {
        p.subrange(p.len() - k, p.len() as int)
    } else {
        p
    }
}

/// Number of `true` entries in `s`.
pub open spec fn count_true(s: Seq<bool>) -> nat
    decreases s.len(),
{
    if s.len() == 0 {
        0
    } else {
        count_true(s.drop_last()) + if s.last() {
            1nat
        } else {
            0nat
        }
    }
}

/// The state of an LRU-K replacer, frame by frame.
pub struct ReplacerModel {
    /// Recorded access timestamps of each frame, oldest first; empty when untracked.
    pub histories: Seq<Seq<u64>>,
    /// Whether each frame is an eviction candidate.
    pub evictable: Seq<bool>,
    /// History depth.
    pub k: nat,
    /// The logical timestamp that the next access receives.
    pub clock: u64,
}

impl ReplacerModel {
    pub open spec fn capacity(self) -> nat {
        self.histories.len()
    }

    pub open spec fn valid_frame(self, f: int) -> bool {
        0 <= f < self.capacity()
    }

    /// `f` is evictable and no evictable frame has a smaller rank.
    pub open spec fn is_victim(self, f: int) -> bool {
        &&& self.valid_frame(f)
        &&& self.evictable[f]
        &&& forall|g: int|
            #![trigger self.evictable[g]]
            self.valid_frame(g) && self.evictable[g] ==> evict_rank(self.histories[f], self.k)
                <= evict_rank(self.histories[g], self.k)
    }

    pub open spec fn has_evictable(self) -> bool {
        exists|g: int| self.valid_frame(g) && #[trigger] self.evictable[g]
    }

    /// The state with frame `f`'s history dropped and its candidacy withdrawn.
    pub open spec fn purge(self, f: int) -> ReplacerModel {
        ReplacerModel {
            histories: self.histories.update(f, Seq::empty()),
            evictable: self.evictable.update(f, false),
            ..self
        }
    }

    /// The state after an access to frame `f` at the current clock.
    pub open spec fn access(self, f: int) -> ReplacerModel {
        ReplacerModel {
            histories: self.histories.update(f, push_history(self.histories[f], self.clock, self.k)),
            clock: self.next_clock(),
            ..self
        }
    }

    /// The state after frame `f` is put in or out of candidacy; untracked frames stay out.
    pub open spec fn mark(self, f: int, evictable: bool) -> ReplacerModel {
        ReplacerModel {
            evictable: if self.histories[f].len() > 0 {
                self.evictable.update(f, evictable)
            } else {
                self.evictable
            },
            ..self
        }
    }

    pub open spec fn next_clock(self) -> u64 {
        if self.clock < u64::MAX {
            (self.clock + 1) as u64
        } else {
            u64::MAX
        }
    }
}

/// LRU-K ordering: a frame with fewer than `k` recorded accesses (infinite
/// backward k-distance) is always evicted before any frame with `k` accesses.
pub proof fn lemma_infinite_distance_first(m: ReplacerModel, f: int, g: int)
    requires
        m.is_victim(f),
        m.valid_frame(g),
        m.evictable[g],
        m.histories[g].len() < m.k,
    ensures
        m.histories[f].len() < m.k,
{
}

/// With `k = 1` the victim is the least recently used evictable frame.
pub proof fn lemma_k1_is_lru(m: ReplacerModel, f: int, g: int)
    requires
        m.k == 1,
        m.is_victim(f),
        m.valid_frame(g),
        m.evictable[g],
        m.histories[f].len() > 0,
        m.histories[g].len() > 0,
    ensures
        m.histories[f].last() <= m.histories[g].last(),
{
    assert(m.histories[f][m.histories[f].len() - 1] == m.histories[f].last());
    assert(m.histories[g][m.histories[g].len() - 1] == m.histories[g].last());
}

/// Chooses eviction victims among evictable frames by backward k-distance.
pub struct LRUKReplacerInternal {
    k: usize,
    current_timestamp: u64,
    histories: Vec<Vec<u64>>,
    evictable: Vec<bool>,
}

impl View for LRUKReplacerInternal {
    type V = ReplacerModel;

    closed spec fn view(&self) -> ReplacerModel {
        ReplacerModel {
            histories: self.histories@.map_values(|h: Vec<u64>| h@),
            evictable: self.evictable@,
            k: self.k as nat,
            clock: self.current_timestamp,
        }
    }
}

impl LRUKReplacerInternal {
    /// Well-formedness: one entry per frame, histories bounded by `k`, and only
    /// tracked frames evictable.
    pub open spec fn wf(&self) -> bool {
        let m = self@;
        &&& m.k >= 1
        &&& m.evictable.len() == m.histories.len()
        &&& m.histories.len() <= isize::MAX
        &&& forall|i: int| 0 <= i < m.capacity() ==> #[trigger] m.histories[i].len() <= m.k
        &&& forall|i: int|
            0 <= i < m.capacity() && #[trigger] m.evictable[i] ==> m.histories[i].len() > 0
    }

    /// A replacer over frames `0..num_frames` with history depth `k`, tracking nothing.
    pub fn new(num_frames: usize, k: usize) -> (r: Self)
        requires
            k >= 1,
            num_frames <= isize::MAX,
        ensures
            r.wf(),
            r@.capacity() == num_frames,
            r@.k == k,
            r@.clock == 0,
            forall|i: int| 0 <= i < num_frames ==> #[trigger] r@.histories[i].len() == 0,
            forall|i: int| 0 <= i < num_frames ==> !#[trigger] r@.evictable[i],
    {
        let mut histories: Vec<Vec<u64>> = Vec::new();
        let mut evictable: Vec<bool> = Vec::new();
        let mut i: usize = 0;
        while i < num_frames
            invariant
                i <= num_frames,
                histories.len() == i,
                evictable.len() == i,
                forall|j: int| 0 <= j < i ==> (#[trigger] histories@[j])@.len() == 0,
                forall|j: int| 0 <= j < i ==> !#[trigger] evictable@[j],
            decreases num_frames - i,
        {
            histories.push(Vec::new());
            evictable.push(false);
            i = i + 1;
        }
        LRUKReplacerInternal { k, current_timestamp: 0, histories, evictable }
    }

    /// Appends the current timestamp to the frame's history, keeping the `k` most recent.
    pub fn record_access(&mut self, frame_id: FrameId)
        requires
            old(self).wf(),
            old(self)@.valid_frame(frame_id as int),
        ensures
            final(self).wf(),
            final(self)@ == old(self)@.access(frame_id as int),
    {
        let ghost old_m = self@;
        let ts = self.current_timestamp;
        let k = self.k;
        let f = frame_id as usize;
        let h = &mut self.histories[f];
        h.push(ts);
        if h.len() > k {
            h.remove(0);
        }
        if self.current_timestamp < u64::MAX {
            self.current_timestamp = self.current_timestamp + 1;
        }
        proof {
            let p = old_m.histories[f as int].push(ts);
            if p.len() > k {
                assert(self.histories@[f as int]@ =~= p.subrange(p.len() - k, p.len() as int));
            }
            assert(self@.histories =~= old_m.histories.update(
                f as int,
                push_history(old_m.histories[f as int], ts, k as nat),
            ));
        }
    }

    /// Adds the frame to, or withdraws it from, eviction candidacy; an untracked
    /// frame stays out.
    pub fn set_evictable(&mut self, frame_id: FrameId, set_evictable: bool)
        requires
            old(self).wf(),
            old(self)@.valid_frame(frame_id as int),
        ensures
            final(self).wf(),
            final(self)@ == old(self)@.mark(frame_id as int, set_evictable),
    {
        let f = frame_id as usize;
        if self.histories[f].len() > 0 {
            self.evictable.set(f, set_evictable);
        }
    }

    /// Drops the frame's history and withdraws it from candidacy.
    pub fn remove(&mut self, frame_id: FrameId)
        requires
            old(self).wf(),
            old(self)@.valid_frame(frame_id as int),
        ensures
            final(self).wf(),
            final(self)@ == old(self)@.purge(frame_id as int),
    {
        let ghost old_m = self@;
        let f = frame_id as usize;
        self.histories.set(f, Vec::new());
        self.evictable.set(f, false);
        proof {
            assert(self@.histories =~= old_m.purge(f as int).histories);
        }
    }

    /// Eviction rank of frame `f`'s history.
    fn rank(&self, f: usize) -> (r: u128)
        requires
            self.wf(),
            f < self@.capacity(),
            self@.histories[f as int].len() > 0,
        ensures
            r as int == evict_rank(self@.histories[f as int], self@.k),
    {
        let h = &self.histories[f];
        let n = h.len();
        if n < self.k {
            h[n - 1] as u128
        } else {
            FINITE_RANK_BASE + h[n - self.k] as u128
        }
    }

    /// Removes and returns the evictable frame of largest backward k-distance;
    /// `None` when no frame is evictable.
    pub fn evict(&mut self) -> (r: Option<FrameId>)
        requires
            old(self).wf(),
        ensures
            final(self).wf(),
            match r {
                None => !old(self)@.has_evictable() && final(self)@ == old(self)@,
                Some(f) => old(self)@.is_victim(f as int) && final(self)@ == old(self)@.purge(
                    f as int,
                ),
            },
    {
        let n = self.evictable.len();
        let mut best: Option<usize> = None;
        let mut best_rank: u128 = 0;
        let mut i: usize = 0;
        while i < n
            invariant
                self.wf(),
                n == self@.capacity(),
                i <= n,
                match best {
                    None => forall|g: int| 0 <= g < i ==> !#[trigger] self@.evictable[g],
                    Some(b) => {
                        &&& b < i
                        &&& self@.evictable[b as int]
                        &&& best_rank as int == evict_rank(self@.histories[b as int], self@.k)
                        &&& forall|g: int|
                            0 <= g < i && #[trigger] self@.evictable[g] ==> best_rank as int
                                <= evict_rank(self@.histories[g], self@.k)
                    },
                },
            decreases n - i,
        {
            if self.evictable[i] {
                let r = self.rank(i);
                if best.is_none() || r < best_rank {
                    best = Some(i);
                    best_rank = r;
                }
            }
            i = i + 1;
        }
        match best {
            None => None,
            Some(b) => {
                let f = b as isize;
                self.remove(f);
                Some(f)
            },
        }
    }

    /// Number of evictable frames.
    pub fn size(&self) -> (r: usize)
        requires
            self.wf(),
        ensures
            r == count_true(self@.evictable),
    {
        let n = self.evictable.len();
        let mut c: usize = 0;
        let mut i: usize = 0;
        while i < n
            invariant
                self.wf(),
                n == self@.evictable.len(),
                i <= n,
                c == count_true(self@.evictable.subrange(0, i as int)),
                c <= i,
            decreases n - i,
        {
            proof {
                let s = self@.evictable.subrange(0, i + 1);
                assert(s.drop_last() =~= self@.evictable.subrange(0, i as int));
            }
            if self.evictable[i] {
                c = c + 1;
            }
            i = i + 1;
        }
        proof {
            assert(self@.evictable.subrange(0, n as int) =~= self@.evictable);
        }
        c
    }

    /// History depth.
    pub fn k(&self) -> (r: usize)
        ensures
            r == self@.k,
    {
        self.k
    }
}

} // verus!
