use vstd::prelude::*;

use std::collections::HashMap;
use std::collections::VecDeque;

use crate::page::{PageInternal, PageModel};
use crate::replacer::{LRUKReplacerInternal, ReplacerModel};
use crate::shared::{FrameId, PageId, INVALID_PAGE_ID, PAGE_SIZE};

verus! {

broadcast use vstd::std_specs::hash::group_hash_axioms;

/// Failures that the buffer pool reports to its callers.
#[derive(PartialEq, Eq, Structural, Clone, Copy, Debug)]
pub enum BufferPoolError {
    /// No free frame and every frame pinned.
    OutOfMemory,
    /// The page is pinned and cannot be deleted.
    InUse,
}

/// Bytes that must be written to disk as page `page_id`.
pub struct PageWrite {
    pub page_id: PageId,
    pub data: Vec<u8>,
}

impl View for PageWrite {
    type V = (PageId, Seq<u8>);

    open spec fn view(&self) -> (PageId, Seq<u8>) {
        (self.page_id, self.data@)
    }
}

pub open spec fn write_view(w: Option<PageWrite>) -> Option<(PageId, Seq<u8>)> {
    match w {
        Some(x) => Some(x@),
        None => None,
    }
}

/// The writes that flush every resident frame of `frames`, in frame order.
pub open spec fn resident_writes(frames: Seq<PageModel>) -> Seq<(PageId, Seq<u8>)>
    decreases frames.len(),
{
    if frames.len() == 0 {
        Seq::empty()
    } else {
        let rest = resident_writes(frames.drop_last());
        let fr = frames.last();
        if fr.id != INVALID_PAGE_ID {
            rest.push((fr.id, fr.data))
        } else {
            rest
        }
    }
}

/// What a fetch decided.
pub enum FetchOutcome {
    /// The page was resident in this frame and is now pinned once more.
    Resident(FrameId),
    /// The page was given `frame_id`, pinned once. The caller writes `write_back`
    /// (the dirty page that left the frame), reads the page from disk and installs
    /// its bytes with `load_frame`.
    Load { frame_id: FrameId, write_back: Option<PageWrite> },
}

/// A freshly allocated page, pinned once in `frame_id`; `write_back` is the dirty
/// page that left the frame, to be written by the caller.
pub struct NewPage {
    pub page_id: PageId,
    pub frame_id: FrameId,
    pub write_back: Option<PageWrite>,
}

/// The whole state of a buffer pool.
pub struct PoolModel {
    pub frames: Seq<PageModel>,
    pub page_table: Map<PageId, FrameId>,
    pub free_list: Seq<FrameId>,
    pub replacer: ReplacerModel,
    pub next_page_id: PageId,
}

impl PoolModel {
    pub open spec fn valid_frame(self, f: int) -> bool {
        0 <= f < self.frames.len()
    }

    /// Frame `f` holds a page.
    pub open spec fn resident(self, f: int) -> bool {
        self.frames[f].id != INVALID_PAGE_ID
    }

    /// Page `p` is held by a frame.
    pub open spec fn is_resident(self, p: PageId) -> bool {
        self.page_table.contains_key(p)
    }

    pub open spec fn frame_of(self, p: PageId) -> int {
        self.page_table[p] as int
    }

    pub open spec fn all_pinned(self) -> bool {
        forall|f: int| self.valid_frame(f) ==> #[trigger] self.frames[f].pin_count > 0
    }

    /// Fetching `p` again would not overflow its pin count.
    pub open spec fn can_pin(self, p: PageId) -> bool {
        self.is_resident(p) ==> self.frames[self.frame_of(p)].pin_count < usize::MAX
    }

    /// The bookkeeping invariant of the pool.
    pub open spec fn inv(self) -> bool {
        let n = self.frames.len();
        &&& n <= isize::MAX
        &&& self.replacer.capacity() == n
        &&& self.replacer.evictable.len() == n
        &&& self.replacer.k >= 1
        &&& self.next_page_id >= 0
        &&& forall|f: int| 0 <= f < n ==> (#[trigger] self.frames[f]).data.len() == PAGE_SIZE
        &&& forall|f: int|
            0 <= f < n && #[trigger] self.resident(f) ==> {
                &&& 0 <= self.frames[f].id < self.next_page_id
                &&& self.page_table.contains_key(self.frames[f].id)
                &&& self.page_table[self.frames[f].id] == f
                &&& self.replacer.histories[f].len() > 0
            }
        &&& forall|f: int|
            0 <= f < n && !#[trigger] self.resident(f) ==> {
                &&& self.free_list.contains(f as FrameId)
                &&& self.replacer.histories[f].len() == 0
            }
        &&& forall|f: int|
            0 <= f < n ==> (#[trigger] self.replacer.evictable[f] <==> (self.resident(f)
                && self.frames[f].pin_count == 0))
        &&& forall|p: PageId|
            #[trigger] self.page_table.contains_key(p) ==> {
                &&& 0 <= p
                &&& 0 <= self.page_table[p] < n
                &&& self.frames[self.page_table[p] as int].id == p
            }
        &&& self.free_list.no_duplicates()
        &&& forall|i: int|
            0 <= i < self.free_list.len() ==> {
                &&& 0 <= #[trigger] self.free_list[i] < n
                &&& !self.resident(self.free_list[i] as int)
            }
    }

    /// Page `p` written to frame `f` as a fresh page, pinned once and recorded
    /// as accessed.
    pub open spec fn install(self, f: int, p: PageId) -> PoolModel {
        PoolModel {
            frames: self.frames.update(f, PageModel::fresh(p)),
            page_table: self.page_table.insert(p, f as FrameId),
            replacer: self.replacer.access(f).mark(f, false),
            next_page_id: if p < self.next_page_id {
                self.next_page_id
            } else {
                (p + 1) as PageId
            },
            ..self
        }
    }

    pub open spec fn take_free(self) -> PoolModel {
        PoolModel { free_list: self.free_list.subrange(1, self.free_list.len() as int), ..self }
    }

    /// Frame `f`'s page leaves the page table and the replacer.
    pub open spec fn drop_victim(self, f: int) -> PoolModel {
        PoolModel {
            page_table: self.page_table.remove(self.frames[f].id),
            replacer: self.replacer.purge(f),
            ..self
        }
    }

    /// What must reach disk before frame `f` is reused.
    pub open spec fn write_back_of(self, f: int) -> Option<(PageId, Seq<u8>)> {
        if self.frames[f].dirty {
            Some((self.frames[f].id, self.frames[f].data))
        } else {
            None
        }
    }

    /// `f` is the frame that a miss takes: the head of the free list, else the
    /// replacer's victim; `wb` is what leaves with it.
    pub open spec fn allocated(self, f: int, wb: Option<(PageId, Seq<u8>)>) -> bool {
        if self.free_list.len() > 0 {
            f == self.free_list[0] && wb is None
        } else {
            self.replacer.is_victim(f) && wb == self.write_back_of(f)
        }
    }

    pub open spec fn after_allocation(self, f: int, p: PageId) -> PoolModel {
        if self.free_list.len() > 0 {
            self.take_free().install(f, p)
        } else {
            self.drop_victim(f).install(f, p)
        }
    }

    /// A resident page pinned once more and recorded as accessed.
    pub open spec fn pinned_again(self, p: PageId) -> PoolModel {
        let f = self.frame_of(p);
        let fr = self.frames[f];
        PoolModel {
            frames: self.frames.update(f, PageModel { pin_count: (fr.pin_count + 1) as usize, ..fr }),
            replacer: self.replacer.access(f).mark(f, false),
            ..self
        }
    }

    /// A resident page released once, its dirty flag accumulated.
    pub open spec fn unpinned(self, p: PageId, is_dirty: bool) -> PoolModel {
        let f = self.frame_of(p);
        let fr = self.frames[f];
        let c = (fr.pin_count - 1) as usize;
        PoolModel {
            frames: self.frames.update(
                f,
                PageModel { pin_count: c, dirty: fr.dirty || is_dirty, ..fr },
            ),
            replacer: if c == 0 {
                self.replacer.mark(f, true)
            } else {
                self.replacer
            },
            ..self
        }
    }

    /// A resident page removed: its frame zeroed and returned to the free list.
    pub open spec fn deleted(self, p: PageId) -> PoolModel {
        let f = self.frame_of(p);
        PoolModel {
            frames: self.frames.update(f, PageModel::empty()),
            page_table: self.page_table.remove(p),
            free_list: self.free_list.push(f as FrameId),
            replacer: self.replacer.purge(f),
            ..self
        }
    }

    /// Frame `f` with new bytes and dirty flag.
    pub open spec fn with_data(self, f: int, data: Seq<u8>, dirty: bool) -> PoolModel {
        PoolModel { frames: self.frames.update(f, PageModel { data, dirty, ..self.frames[f] }), ..self }
    }
}

proof fn lemma_allocation_inv(m: PoolModel, f: int, p: PageId, wb: Option<(PageId, Seq<u8>)>)
    requires
        m.inv(),
        0 <= p < isize::MAX,
        !m.is_resident(p),
        m.allocated(f, wb),
    ensures
        m.valid_frame(f),
        m.after_allocation(f, p).inv(),
        m.free_list.len() == 0 ==> m.resident(f) && m.frames[f].pin_count == 0,
        m.free_list.len() > 0 ==> !m.resident(f),
{
    let n = m.frames.len();
    let m2 = if m.free_list.len() > 0 {
        m.take_free()
    } else {
        m.drop_victim(f)
    };
    let r = m.after_allocation(f, p);
    assert(r == m2.install(f, p));
    if m.free_list.len() > 0 {
        assert(m.free_list[0] == f);
        assert(!m.resident(f));
        assert forall|g: int| 0 <= g < n && !#[trigger] r.resident(g) implies {
            &&& r.free_list.contains(g as FrameId)
            &&& r.replacer.histories[g].len() == 0
        } by {
            assert(g != f);
            assert(!m.resident(g));
            assert(m.free_list.contains(g as FrameId));
            let i = choose|i: int| 0 <= i < m.free_list.len() && m.free_list[i] == g as FrameId;
            assert(i != 0);
            assert(r.free_list[i - 1] == g as FrameId);
        }
        assert forall|i: int| 0 <= i < r.free_list.len() implies {
            &&& 0 <= #[trigger] r.free_list[i] < n
            &&& !r.resident(r.free_list[i] as int)
        } by {
            assert(r.free_list[i] == m.free_list[i + 1]);
            assert(m.free_list[i + 1] != m.free_list[0]);
        }
        assert(r.free_list.no_duplicates()) by {
            assert forall|i: int, j: int| 0 <= i < r.free_list.len() && 0 <= j < r.free_list.len() && i != j
                implies r.free_list[i] != r.free_list[j] by {
                assert(r.free_list[i] == m.free_list[i + 1]);
                assert(r.free_list[j] == m.free_list[j + 1]);
            }
        }
    } else {
        assert(m.replacer.evictable[f]);
        assert forall|g: int| 0 <= g < n implies #[trigger] m.resident(g) by {
            if !m.resident(g) {
                assert(m.free_list.contains(g as FrameId));
            }
        }
        assert forall|g: int| 0 <= g < n && !#[trigger] r.resident(g) implies {
            &&& r.free_list.contains(g as FrameId)
            &&& r.replacer.histories[g].len() == 0
        } by {
            assert(m.resident(g));
        }
    }
    assert forall|q: PageId| #[trigger] r.page_table.contains_key(q) implies {
        &&& 0 <= q
        &&& 0 <= r.page_table[q] < n
        &&& r.frames[r.page_table[q] as int].id == q
    } by {
        if q != p {
            assert(m.page_table.contains_key(q));
            assert(m.page_table[q] != f);
        }
    }
    assert forall|g: int| 0 <= g < n && #[trigger] r.resident(g) implies {
        &&& 0 <= r.frames[g].id < r.next_page_id
        &&& r.page_table.contains_key(r.frames[g].id)
        &&& r.page_table[r.frames[g].id] == g
        &&& r.replacer.histories[g].len() > 0
    } by {
        if g != f {
            assert(m.resident(g));
            assert(m.frames[g].id != p);
        }
    }
    assert forall|g: int| 0 <= g < n implies (#[trigger] r.replacer.evictable[g] <==> (r.resident(g)
        && r.frames[g].pin_count == 0)) by {
        if g == f {
            assert(r.replacer.histories[f].len() > 0);
        }
    }
    assert forall|g: int| 0 <= g < n implies (#[trigger] r.frames[g]).data.len() == PAGE_SIZE by {
    }
}

proof fn lemma_pinned_again_inv(m: PoolModel, p: PageId)
    requires
        m.inv(),
        m.is_resident(p),
        m.can_pin(p),
    ensures
        m.pinned_again(p).inv(),
{
    let r = m.pinned_again(p);
    let f = m.frame_of(p);
    assert(m.resident(f));
    assert forall|g: int| 0 <= g < m.frames.len() implies (#[trigger] r.replacer.evictable[g] <==> (
    r.resident(g) && r.frames[g].pin_count == 0)) by {
        if g == f {
            assert(r.replacer.histories[f].len() > 0);
        }
    }
    assert forall|g: int| 0 <= g < m.frames.len() && #[trigger] r.resident(g) implies {
        &&& 0 <= r.frames[g].id < r.next_page_id
        &&& r.page_table.contains_key(r.frames[g].id)
        &&& r.page_table[r.frames[g].id] == g
        &&& r.replacer.histories[g].len() > 0
    } by {
        assert(m.resident(g));
    }
    assert forall|g: int| 0 <= g < m.frames.len() && !#[trigger] r.resident(g) implies {
        &&& r.free_list.contains(g as FrameId)
        &&& r.replacer.histories[g].len() == 0
    } by {
        assert(!m.resident(g));
    }
    assert forall|i: int| 0 <= i < r.free_list.len() implies {
        &&& 0 <= #[trigger] r.free_list[i] < m.frames.len()
        &&& !r.resident(r.free_list[i] as int)
    } by {
        assert(!m.resident(m.free_list[i] as int));
    }
    assert forall|g: int| 0 <= g < m.frames.len() implies (#[trigger] r.frames[g]).data.len() == PAGE_SIZE by {
    }
}

proof fn lemma_unpinned_inv(m: PoolModel, p: PageId, is_dirty: bool)
    requires
        m.inv(),
        m.is_resident(p),
        m.frames[m.frame_of(p)].pin_count > 0,
    ensures
        m.unpinned(p, is_dirty).inv(),
{
    let r = m.unpinned(p, is_dirty);
    let f = m.frame_of(p);
    assert(m.resident(f));
    assert forall|g: int| 0 <= g < m.frames.len() && #[trigger] r.resident(g) implies {
        &&& 0 <= r.frames[g].id < r.next_page_id
        &&& r.page_table.contains_key(r.frames[g].id)
        &&& r.page_table[r.frames[g].id] == g
        &&& r.replacer.histories[g].len() > 0
    } by {
        assert(m.resident(g));
    }
    assert forall|g: int| 0 <= g < m.frames.len() && !#[trigger] r.resident(g) implies {
        &&& r.free_list.contains(g as FrameId)
        &&& r.replacer.histories[g].len() == 0
    } by {
        assert(!m.resident(g));
    }
    assert forall|i: int| 0 <= i < r.free_list.len() implies {
        &&& 0 <= #[trigger] r.free_list[i] < m.frames.len()
        &&& !r.resident(r.free_list[i] as int)
    } by {
        assert(!m.resident(m.free_list[i] as int));
    }
    assert forall|g: int| 0 <= g < m.frames.len() implies (#[trigger] r.replacer.evictable[g] <==> (
    r.resident(g) && r.frames[g].pin_count == 0)) by {
        assert(m.replacer.evictable[g] <==> (m.resident(g) && m.frames[g].pin_count == 0));
    }
    assert forall|g: int| 0 <= g < m.frames.len() implies (#[trigger] r.frames[g]).data.len() == PAGE_SIZE by {
    }
}

proof fn lemma_deleted_inv(m: PoolModel, p: PageId)
    requires
        m.inv(),
        m.is_resident(p),
        m.frames[m.frame_of(p)].pin_count == 0,
    ensures
        m.deleted(p).inv(),
{
    let r = m.deleted(p);
    let f = m.frame_of(p);
    let n = m.frames.len();
    assert(m.resident(f));
    assert(!m.free_list.contains(f as FrameId));
    assert(r.free_list[r.free_list.len() - 1] == f as FrameId);
    assert forall|g: int| 0 <= g < n && !#[trigger] r.resident(g) implies {
        &&& r.free_list.contains(g as FrameId)
        &&& r.replacer.histories[g].len() == 0
    } by {
        if g != f {
            assert(!m.resident(g));
            assert(m.free_list.contains(g as FrameId));
            let i = choose|i: int| 0 <= i < m.free_list.len() && m.free_list[i] == g as FrameId;
            assert(r.free_list[i] == g as FrameId);
        }
    }
    assert forall|i: int| 0 <= i < r.free_list.len() implies {
        &&& 0 <= #[trigger] r.free_list[i] < n
        &&& !r.resident(r.free_list[i] as int)
    } by {
        if i < m.free_list.len() {
            assert(r.free_list[i] == m.free_list[i]);
            assert(!m.resident(m.free_list[i] as int));
        }
    }
    assert(r.free_list.no_duplicates()) by {
        assert forall|i: int, j: int| 0 <= i < r.free_list.len() && 0 <= j < r.free_list.len() && i != j
            implies r.free_list[i] != r.free_list[j] by {
            if i < m.free_list.len() {
                assert(!m.resident(m.free_list[i] as int));
            }
            if j < m.free_list.len() {
                assert(!m.resident(m.free_list[j] as int));
            }
        }
    }
    assert forall|q: PageId| #[trigger] r.page_table.contains_key(q) implies {
        &&& 0 <= q
        &&& 0 <= r.page_table[q] < n
        &&& r.frames[r.page_table[q] as int].id == q
    } by {
        assert(m.page_table.contains_key(q));
        assert(m.page_table[q] != f);
    }
    assert forall|g: int| 0 <= g < n && #[trigger] r.resident(g) implies {
        &&& 0 <= r.frames[g].id < r.next_page_id
        &&& r.page_table.contains_key(r.frames[g].id)
        &&& r.page_table[r.frames[g].id] == g
        &&& r.replacer.histories[g].len() > 0
    } by {
        assert(m.resident(g));
        assert(m.frames[g].id != p);
    }
    assert forall|g: int| 0 <= g < n implies (#[trigger] r.replacer.evictable[g] <==> (r.resident(g)
        && r.frames[g].pin_count == 0)) by {
        assert(m.replacer.evictable[g] <==> (m.resident(g) && m.frames[g].pin_count == 0));
    }
    assert forall|g: int| 0 <= g < n implies (#[trigger] r.frames[g]).data.len() == PAGE_SIZE by {
    }
}

proof fn lemma_with_data_inv(m: PoolModel, f: int, data: Seq<u8>, dirty: bool)
    requires
        m.inv(),
        m.valid_frame(f),
        data.len() == PAGE_SIZE,
    ensures
        m.with_data(f, data, dirty).inv(),
{
    let r = m.with_data(f, data, dirty);
    assert forall|g: int| 0 <= g < m.frames.len() && #[trigger] r.resident(g) implies {
        &&& 0 <= r.frames[g].id < r.next_page_id
        &&& r.page_table.contains_key(r.frames[g].id)
        &&& r.page_table[r.frames[g].id] == g
        &&& r.replacer.histories[g].len() > 0
    } by {
        assert(m.resident(g));
    }
    assert forall|g: int| 0 <= g < m.frames.len() && !#[trigger] r.resident(g) implies {
        &&& r.free_list.contains(g as FrameId)
        &&& r.replacer.histories[g].len() == 0
    } by {
        assert(!m.resident(g));
    }
    assert forall|i: int| 0 <= i < r.free_list.len() implies {
        &&& 0 <= #[trigger] r.free_list[i] < m.frames.len()
        &&& !r.resident(r.free_list[i] as int)
    } by {
        assert(!m.resident(m.free_list[i] as int));
    }
    assert forall|g: int| 0 <= g < m.frames.len() implies (#[trigger] r.replacer.evictable[g] <==> (
    r.resident(g) && r.frames[g].pin_count == 0)) by {
        assert(m.replacer.evictable[g] <==> (m.resident(g) && m.frames[g].pin_count == 0));
    }
    assert forall|g: int| 0 <= g < m.frames.len() implies (#[trigger] r.frames[g]).data.len() == PAGE_SIZE by {
    }
}

/// Bijectivity: no two distinct resident pages are mapped to the same frame.
/// Every operation of the pool preserves `inv`, so this holds after any sequence
/// of them.
pub proof fn lemma_page_table_injective(m: PoolModel, p: PageId, q: PageId)
    requires
        m.inv(),
        m.is_resident(p),
        m.is_resident(q),
        p != q,
    ensures
        m.page_table[p] != m.page_table[q],
{
}

/// Pin safety: the replacer's victim is a resident frame with no pins.
pub proof fn lemma_victim_unpinned(m: PoolModel, f: int)
    requires
        m.inv(),
        m.replacer.is_victim(f),
    ensures
        m.resident(f),
        m.frames[f].pin_count == 0,
{
}

/// Durability: bytes written into a page pinned once, released dirty and flushed
/// are what the flush writes; when the frame is then taken for another page
/// nothing is written back over them, and the page is no longer resident, so a
/// later fetch reads it from disk.
pub proof fn lemma_flushed_page_round_trip(
    m: PoolModel,
    p: PageId,
    d: Seq<u8>,
    q: PageId,
    wb: Option<(PageId, Seq<u8>)>,
)
    requires
        m.inv(),
        m.is_resident(p),
        m.frames[m.frame_of(p)].pin_count == 1,
        d.len() == PAGE_SIZE,
        ({
            let f = m.frame_of(p);
            let m1 = m.with_data(f, d, true).unpinned(p, true);
            let m2 = m1.with_data(f, m1.frames[f].data, false);
            !m2.is_resident(q) && m2.allocated(f, wb)
        }),
    ensures
        ({
            let f = m.frame_of(p);
            let m1 = m.with_data(f, d, true).unpinned(p, true);
            let m2 = m1.with_data(f, m1.frames[f].data, false);
            &&& m1.frames[f].data == d
            &&& wb is None
            &&& !m2.after_allocation(f, q).is_resident(p)
        }),
{
    let f = m.frame_of(p);
    let m1 = m.with_data(f, d, true).unpinned(p, true);
    let m2 = m1.with_data(f, m1.frames[f].data, false);
    assert(m.resident(f));
    lemma_with_data_inv(m, f, d, true);
    lemma_unpinned_inv(m.with_data(f, d, true), p, true);
    lemma_with_data_inv(m1, f, m1.frames[f].data, false);
    if m2.free_list.len() > 0 {
        assert(!m2.resident(m2.free_list[0] as int));
    }
    let r = m2.after_allocation(f, q);
    if r.is_resident(p) {
        assert(r.page_table[p] == f);
        assert(r.frames[f].id == q);
    }
}

/// A write-back handed out when a frame is taken is the victim's own page, which
/// was resident: never the page being brought in, so it cannot overwrite bytes
/// that a fetch of that page is about to read.
pub proof fn lemma_write_back_is_victims_page(
    m: PoolModel,
    f: int,
    p: PageId,
    wb: Option<(PageId, Seq<u8>)>,
)
    requires
        m.inv(),
        !m.is_resident(p),
        m.allocated(f, wb),
        wb is Some,
    ensures
        wb.unwrap().0 == m.frames[f].id,
        m.is_resident(wb.unwrap().0),
        wb.unwrap().0 != p,
{
    if m.free_list.len() > 0 {
        assert(wb is None);
    }
    assert(m.replacer.evictable[f]);
}

/// Serves pages of a backing file from a fixed array of in-memory frames.
pub struct BufferPoolInternal {
    pool_size: usize,
    replacer_k: usize,
    frames: Vec<PageInternal>,
    page_table: HashMap<PageId, FrameId>,
    free_list: VecDeque<FrameId>,
    replacer: LRUKReplacerInternal,
    next_page_id: PageId,
}

impl View for BufferPoolInternal {
    type V = PoolModel;

    closed spec fn view(&self) -> PoolModel {
        PoolModel {
            frames: self.frames@.map_values(|p: PageInternal| p@),
            page_table: self.page_table@,
            free_list: self.free_list@,
            replacer: self.replacer@,
            next_page_id: self.next_page_id,
        }
    }
}

impl BufferPoolInternal {
    pub closed spec fn parts_wf(&self) -> bool {
        &&& self.replacer.wf()
        &&& self.pool_size == self.frames@.len()
        &&& self.replacer_k == self.replacer@.k
    }

    pub open spec fn wf(&self) -> bool {
        self.parts_wf() && self@.inv()
    }

    proof fn lemma_view_frames(&self)
        ensures
            self@.frames.len() == self.frames@.len(),
            forall|i: int| 0 <= i < self.frames@.len() ==> #[trigger] self@.frames[i] == self.frames@[i]@,
    {
    }

    /// Takes a frame for `page_id`, which is not resident: the free list's head,
    /// else the replacer's victim, whose dirty bytes are handed back.
    fn allocate(&mut self, page_id: PageId) -> (r: Result<(FrameId, Option<PageWrite>), BufferPoolError>)
        requires
            old(self).wf(),
            0 <= page_id < isize::MAX,
            !old(self)@.is_resident(page_id),
        ensures
            final(self).wf(),
            r is Err <==> (old(self)@.free_list.len() == 0 && old(self)@.all_pinned()),
            match r {
                Ok((f, wb)) => old(self)@.allocated(f as int, write_view(wb)) && final(self)@
                    == old(self)@.after_allocation(f as int, page_id),
                Err(e) => e == BufferPoolError::OutOfMemory && final(self)@ == old(self)@,
            },
    {
        let ghost old_m = self@;
        proof {
            self.lemma_view_frames();
        }
        let mut write_back: Option<PageWrite> = None;
        let frame_id: FrameId;
        match self.free_list.pop_front() {
            Some(f) => {
                frame_id = f;
                proof {
                    assert(old_m.free_list[0] == f);
                }
            },
            None => {
                match self.replacer.evict() {
                    None => {
                        proof {
                            assert forall|f: int| old_m.valid_frame(f) implies #[trigger] old_m.frames[f].pin_count > 0 by {
                                if !old_m.resident(f) {
                                    assert(old_m.free_list.contains(f as FrameId));
                                }
                                assert(!old_m.replacer.evictable[f]);
                            }
                        }
                        return Err(BufferPoolError::OutOfMemory);
                    },
                    Some(f) => {
                        let fu = f as usize;
                        let old_id = self.frames[fu].get_id();
                        if self.frames[fu].is_dirty() {
                            write_back = Some(PageWrite { page_id: old_id, data: self.frames[fu].get_data() });
                        }
                        self.page_table.remove(&old_id);
                        frame_id = f;
                        proof {
                            assert(old_m.replacer.evictable[f as int]);
                            assert(old_m.frames[f as int].pin_count == 0);
                        }
                    },
                }
            },
        }
        let fu = frame_id as usize;
        self.frames.set(fu, PageInternal::with_id(page_id));
        self.page_table.insert(page_id, frame_id);
        self.replacer.record_access(frame_id);
        self.replacer.set_evictable(frame_id, false);
        if page_id >= self.next_page_id {
            self.next_page_id = page_id + 1;
        }
        proof {
            lemma_allocation_inv(old_m, frame_id as int, page_id, write_view(write_back));
            let mid = old_m.after_allocation(frame_id as int, page_id);
            assert(self@.frames =~= mid.frames);
            assert(self@.replacer == mid.replacer);
            assert(self@.page_table =~= mid.page_table);
            assert(self@.free_list =~= mid.free_list);
            assert(self@ == mid);
        }
        Ok((frame_id, write_back))
    }

    /// A pool of `pool_size` empty frames, all on the free list in order, with an
    /// LRU-K replacer of depth `replacer_k`.
    pub fn new(pool_size: usize, replacer_k: usize) -> (r: Self)
        requires
            replacer_k >= 1,
            pool_size <= isize::MAX,
        ensures
            r.wf(),
            r@.frames.len() == pool_size,
            forall|f: int| 0 <= f < pool_size ==> #[trigger] r@.frames[f] == PageModel::empty(),
            r@.page_table == Map::<PageId, FrameId>::empty(),
            r@.free_list == Seq::new(pool_size as nat, |i: int| i as FrameId),
            r@.replacer.k == replacer_k,
            r@.replacer.clock == 0,
            r@.next_page_id == 0,
    {
        let replacer = LRUKReplacerInternal::new(pool_size, replacer_k);
        let mut frames: Vec<PageInternal> = Vec::new();
        let mut free_list: VecDeque<FrameId> = VecDeque::new();
        let mut i: usize = 0;
        while i < pool_size
            invariant
                i <= pool_size,
                pool_size <= isize::MAX,
                frames@.len() == i,
                forall|f: int| 0 <= f < i ==> #[trigger] frames@[f]@ == PageModel::empty(),
                free_list@ == Seq::new(i as nat, |j: int| j as FrameId),
            decreases pool_size - i,
        {
            frames.push(PageInternal::new());
            free_list.push_back(i as FrameId);
            i = i + 1;
            assert(free_list@ =~= Seq::new(i as nat, |j: int| j as FrameId));
        }
        let r = BufferPoolInternal {
            pool_size,
            replacer_k,
            frames,
            page_table: HashMap::new(),
            free_list,
            replacer,
            next_page_id: 0,
        };
        proof {
            r.lemma_view_frames();
            let m = r@;
            assert forall|f: int| 0 <= f < pool_size && !#[trigger] m.resident(f) implies {
                &&& m.free_list.contains(f as FrameId)
                &&& m.replacer.histories[f].len() == 0
            } by {
                assert(m.free_list[f] == f as FrameId);
            }
            assert forall|f: int| 0 <= f < pool_size implies #[trigger] m.resident(f) == false by {
            }
        }
        r
    }

    /// Borrows page `page_id`. A resident page is pinned once more. Otherwise the
    /// page gets a frame from the free list, else the replacer's victim, and must
    /// be read from disk by the caller; `OutOfMemory` when no frame is free and
    /// every frame is pinned.
    pub fn fetch_page(&mut self, page_id: PageId) -> (r: Result<FetchOutcome, BufferPoolError>)
        requires
            old(self).wf(),
            0 <= page_id < isize::MAX,
            old(self)@.can_pin(page_id),
        ensures
            final(self).wf(),
            r is Err <==> (!old(self)@.is_resident(page_id) && old(self)@.free_list.len() == 0
                && old(self)@.all_pinned()),
            match r {
                Ok(FetchOutcome::Resident(f)) => old(self)@.is_resident(page_id) && f
                    == old(self)@.page_table[page_id] && final(self)@ == old(self)@.pinned_again(
                    page_id,
                ),
                Ok(FetchOutcome::Load { frame_id, write_back }) => !old(self)@.is_resident(page_id)
                    && old(self)@.allocated(frame_id as int, write_view(write_back)) && final(self)@
                    == old(self)@.after_allocation(frame_id as int, page_id),
                Err(e) => e == BufferPoolError::OutOfMemory && final(self)@ == old(self)@,
            },
    {
        let ghost old_m = self@;
        proof {
            self.lemma_view_frames();
        }
        match self.page_table.get(&page_id) {
            Some(fr) => {
                let f = *fr;
                let fu = f as usize;
                let c = self.frames[fu].get_pin_count();
                self.frames[fu].set_pin_count(c + 1);
                self.replacer.record_access(f);
                self.replacer.set_evictable(f, false);
                proof {
                    lemma_pinned_again_inv(old_m, page_id);
                    assert(self@.frames =~= old_m.pinned_again(page_id).frames);
                }
                Ok(FetchOutcome::Resident(f))
            },
            None => {
                match self.allocate(page_id) {
                    Ok((frame_id, write_back)) => Ok(FetchOutcome::Load { frame_id, write_back }),
                    Err(e) => Err(e),
                }
            },
        }
    }

    /// Allocates the next page id to a zeroed frame, pinned once, with no disk read.
    pub fn new_page(&mut self) -> (r: Result<NewPage, BufferPoolError>)
        requires
            old(self).wf(),
            old(self)@.next_page_id < isize::MAX,
        ensures
            final(self).wf(),
            r is Err <==> (old(self)@.free_list.len() == 0 && old(self)@.all_pinned()),
            match r {
                Ok(np) => np.page_id == old(self)@.next_page_id && !old(self)@.is_resident(np.page_id)
                    && old(self)@.allocated(np.frame_id as int, write_view(np.write_back))
                    && final(self)@ == old(self)@.after_allocation(np.frame_id as int, np.page_id),
                Err(e) => e == BufferPoolError::OutOfMemory && final(self)@ == old(self)@,
            },
    {
        let page_id = self.next_page_id;
        proof {
            if self@.is_resident(page_id) {
                assert(self@.resident(self@.frame_of(page_id)));
            }
        }
        match self.allocate(page_id) {
            Ok((frame_id, write_back)) => Ok(NewPage { page_id, frame_id, write_back }),
            Err(e) => Err(e),
        }
    }

    /// Releases one pin of a resident page and accumulates its dirty flag; at zero
    /// pins the frame becomes evictable. False, and nothing changes, when the page
    /// is not resident or not pinned.
    pub fn unpin_page(&mut self, page_id: PageId, is_dirty: bool) -> (r: bool)
        requires
            old(self).wf(),
        ensures
            final(self).wf(),
            r == (old(self)@.is_resident(page_id) && old(self)@.frames[old(self)@.frame_of(
                page_id,
            )].pin_count > 0),
            r ==> final(self)@ == old(self)@.unpinned(page_id, is_dirty),
            !r ==> final(self)@ == old(self)@,
    {
        let ghost old_m = self@;
        proof {
            self.lemma_view_frames();
        }
        match self.page_table.get(&page_id) {
            Some(fr) => {
                let f = *fr;
                proof {
                    assert(old_m.page_table.contains_key(page_id));
                }
                let fu = f as usize;
                let c = self.frames[fu].get_pin_count();
                if c == 0 {
                    return false;
                }
                let d = self.frames[fu].is_dirty();
                self.frames[fu].set_pin_count(c - 1);
                self.frames[fu].set_dirty(d || is_dirty);
                if c == 1 {
                    self.replacer.set_evictable(f, true);
                }
                proof {
                    lemma_unpinned_inv(old_m, page_id, is_dirty);
                    assert(self@.frames =~= old_m.unpinned(page_id, is_dirty).frames);
                }
                true
            },
            None => false,
        }
    }

    /// Removes an unpinned resident page: its frame is zeroed and returned to the
    /// free list. `InUse`, and nothing changes, when the page is pinned; a page
    /// that is not resident needs nothing.
    pub fn delete_page(&mut self, page_id: PageId) -> (r: Result<(), BufferPoolError>)
        requires
            old(self).wf(),
        ensures
            final(self).wf(),
            r is Err <==> (old(self)@.is_resident(page_id) && old(self)@.frames[old(self)@.frame_of(
                page_id,
            )].pin_count > 0),
            match r {
                Ok(()) => if old(self)@.is_resident(page_id) {
                    final(self)@ == old(self)@.deleted(page_id)
                } else {
                    final(self)@ == old(self)@
                },
                Err(e) => e == BufferPoolError::InUse && final(self)@ == old(self)@,
            },
    {
        let ghost old_m = self@;
        proof {
            self.lemma_view_frames();
        }
        match self.page_table.get(&page_id) {
            Some(fr) => {
                let f = *fr;
                proof {
                    assert(old_m.page_table.contains_key(page_id));
                }
                let fu = f as usize;
                if self.frames[fu].get_pin_count() > 0 {
                    return Err(BufferPoolError::InUse);
                }
                self.page_table.remove(&page_id);
                self.replacer.remove(f);
                self.frames.set(fu, PageInternal::new());
                self.free_list.push_back(f);
                proof {
                    lemma_deleted_inv(old_m, page_id);
                    assert(self@.frames =~= old_m.deleted(page_id).frames);
                    assert(self@.page_table =~= old_m.deleted(page_id).page_table);
                }
                Ok(())
            },
            None => Ok(()),
        }
    }

    /// The frame that holds page `page_id`, if resident.
    pub fn lookup(&self, page_id: PageId) -> (r: Option<FrameId>)
        requires
            self.wf(),
        ensures
            r == if self@.is_resident(page_id) {
                Some(self@.page_table[page_id])
            } else {
                None
            },
    {
        match self.page_table.get(&page_id) {
            Some(f) => Some(*f),
            None => None,
        }
    }

    /// The frame at index `frame_id`.
    pub fn page(&self, frame_id: FrameId) -> (r: &PageInternal)
        requires
            self.wf(),
            self@.valid_frame(frame_id as int),
        ensures
            r@ == self@.frames[frame_id as int],
    {
        proof {
            self.lemma_view_frames();
        }
        &self.frames[frame_id as usize]
    }

    /// Installs the bytes read from disk for the page resident in `frame_id`; the
    /// frame stays clean.
    pub fn load_frame(&mut self, frame_id: FrameId, data: Vec<u8>)
        requires
            old(self).wf(),
            old(self)@.valid_frame(frame_id as int),
            old(self)@.resident(frame_id as int),
            data@.len() == PAGE_SIZE,
        ensures
            final(self).wf(),
            final(self)@ == old(self)@.with_data(frame_id as int, data@, old(self)@.frames[frame_id as int].dirty),
    {
        let ghost old_m = self@;
        proof {
            self.lemma_view_frames();
        }
        let ghost d = data@;
        self.frames[frame_id as usize].set_data(data);
        proof {
            lemma_with_data_inv(old_m, frame_id as int, d, old_m.frames[frame_id as int].dirty);
            assert(self@.frames =~= old_m.with_data(frame_id as int, d, old_m.frames[frame_id as int].dirty).frames);
        }
    }

    /// Replaces the bytes of frame `frame_id` in place, which makes it dirty.
    pub fn write_frame(&mut self, frame_id: FrameId, data: Vec<u8>)
        requires
            old(self).wf(),
            old(self)@.valid_frame(frame_id as int),
            old(self)@.resident(frame_id as int),
            data@.len() == PAGE_SIZE,
        ensures
            final(self).wf(),
            final(self)@ == old(self)@.with_data(frame_id as int, data@, true),
    {
        let ghost old_m = self@;
        proof {
            self.lemma_view_frames();
        }
        let ghost d = data@;
        let fu = frame_id as usize;
        self.frames[fu].set_data(data);
        self.frames[fu].set_dirty(true);
        proof {
            lemma_with_data_inv(old_m, frame_id as int, d, true);
            assert(self@.frames =~= old_m.with_data(frame_id as int, d, true).frames);
        }
    }

    /// The write that flushes page `page_id`: its current bytes, whatever its dirty
    /// flag; `None` when it is not resident.
    pub fn flush_page(&self, page_id: PageId) -> (r: Option<PageWrite>)
        requires
            self.wf(),
        ensures
            write_view(r) == if self@.is_resident(page_id) {
                Some((page_id, self@.frames[self@.frame_of(page_id)].data))
            } else {
                None
            },
    {
        proof {
            self.lemma_view_frames();
        }
        match self.page_table.get(&page_id) {
            Some(f) => Some(PageWrite { page_id, data: self.frames[*f as usize].get_data() }),
            None => None,
        }
    }

    /// Records that the flush of page `page_id` succeeded: its frame is clean.
    pub fn complete_flush(&mut self, page_id: PageId)
        requires
            old(self).wf(),
        ensures
            final(self).wf(),
            final(self)@ == if old(self)@.is_resident(page_id) {
                old(self)@.with_data(
                    old(self)@.frame_of(page_id),
                    old(self)@.frames[old(self)@.frame_of(page_id)].data,
                    false,
                )
            } else {
                old(self)@
            },
    {
        let ghost old_m = self@;
        proof {
            self.lemma_view_frames();
        }
        match self.page_table.get(&page_id) {
            Some(fr) => {
                proof {
                    assert(old_m.page_table.contains_key(page_id));
                }
                let fu = *fr as usize;
                self.frames[fu].set_dirty(false);
                proof {
                    let f = old_m.frame_of(page_id);
                    lemma_with_data_inv(old_m, f, old_m.frames[f].data, false);
                    assert(self@.frames =~= old_m.with_data(f, old_m.frames[f].data, false).frames);
                }
            },
            None => {},
        }
    }

    /// The writes that flush every resident page, in frame order.
    pub fn flush_all(&self) -> (r: Vec<PageWrite>)
        requires
            self.wf(),
        ensures
            r@.map_values(|w: PageWrite| w@) == resident_writes(self@.frames),
    {
        proof {
            self.lemma_view_frames();
        }
        let mut out: Vec<PageWrite> = Vec::new();
        let mut i: usize = 0;
        while i < self.frames.len()
            invariant
                self.wf(),
                i <= self@.frames.len(),
                self@.frames.len() == self.frames@.len(),
                forall|j: int| 0 <= j < self.frames@.len() ==> #[trigger] self@.frames[j] == self.frames@[j]@,
                out@.map_values(|w: PageWrite| w@) == resident_writes(self@.frames.subrange(0, i as int)),
            decreases self.frames@.len() - i,
        {
            let ghost before = out@.map_values(|w: PageWrite| w@);
            let id = self.frames[i].get_id();
            if id != INVALID_PAGE_ID {
                out.push(PageWrite { page_id: id, data: self.frames[i].get_data() });
            }
            proof {
                let s = self@.frames.subrange(0, i + 1);
                assert(s.drop_last() =~= self@.frames.subrange(0, i as int));
                assert(out@.map_values(|w: PageWrite| w@) =~= resident_writes(s));
            }
            i = i + 1;
        }
        proof {
            assert(self@.frames.subrange(0, i as int) =~= self@.frames);
        }
        out
    }

    pub fn pool_size(&self) -> (r: usize)
        requires
            self.wf(),
        ensures
            r == self@.frames.len(),
    {
        self.pool_size
    }

    pub fn replacer_k(&self) -> (r: usize)
        requires
            self.wf(),
        ensures
            r == self@.replacer.k,
    {
        self.replacer_k
    }

    /// The id that the next `new_page` hands out.
    pub fn next_page_id(&self) -> (r: PageId)
        ensures
            r == self@.next_page_id,
    {
        self.next_page_id
    }
}


} // verus!
