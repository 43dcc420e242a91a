use vstd::prelude::*;

use crate::shared::{PageId, INVALID_PAGE_ID, PAGE_SIZE};

verus! {

/// A page of zero bytes.
pub open spec fn zeroed() -> Seq<u8> {
    Seq::new(PAGE_SIZE as nat, |i: int| 0u8)
}

/// What a frame holds: its bytes, the resident page, its borrowers and whether it
/// differs from disk.
pub struct PageModel {
    pub data: Seq<u8>,
    pub id: PageId,
    pub pin_count: usize,
    pub dirty: bool,
}

impl PageModel {
    /// The state of a frame with no resident page.
    pub open spec fn empty() -> PageModel {
        PageModel { data: zeroed(), id: INVALID_PAGE_ID, pin_count: 0, dirty: false }
    }

    /// The state of a frame that has just received page `id`, pinned once.
    pub open spec fn fresh(id: PageId) -> PageModel {
        PageModel { data: zeroed(), id, pin_count: 1, dirty: false }
    }
}

/// A fixed-size in-memory page frame with its metadata.
pub struct PageInternal {
    data: Vec<u8>,
    id: PageId,
    pin_count: usize,
    dirty: bool,
}

impl View for PageInternal {
    type V = PageModel;

    closed spec fn view(&self) -> PageModel {
        PageModel { data: self.data@, id: self.id, pin_count: self.pin_count, dirty: self.dirty }
    }
}

/// A fresh buffer of `PAGE_SIZE` zero bytes.
pub fn zeroed_page() -> (r: Vec<u8>)
    ensures
        r@ == zeroed(),
{
    let mut v: Vec<u8> = Vec::with_capacity(PAGE_SIZE);
    let mut i: usize = 0;
    while i < PAGE_SIZE
        invariant
            i <= PAGE_SIZE,
            v@.len() == i,
            forall|j: int| 0 <= j < i ==> v@[j] == 0u8,
        decreases PAGE_SIZE - i,
    {
        v.push(0u8);
        i = i + 1;
    }
    assert(v@ =~= zeroed());
    v
}

/// A copy of `src`.
pub fn copy_bytes(src: &Vec<u8>) -> (r: Vec<u8>)
    ensures
        r@ == src@,
{
    let mut v: Vec<u8> = Vec::with_capacity(src.len());
    let mut i: usize = 0;
    while i < src.len()
        invariant
            i <= src@.len(),
            v@ == src@.subrange(0, i as int),
        decreases src@.len() - i,
    {
        v.push(src[i]);
        i = i + 1;
        assert(v@ =~= src@.subrange(0, i as int));
    }
    assert(v@ =~= src@);
    v
}

impl PageInternal {
    /// An empty frame: zero bytes, no resident page, unpinned, clean.
    pub fn new() -> (r: Self)
        ensures
            r@ == PageModel::empty(),
    {
        PageInternal { data: zeroed_page(), id: INVALID_PAGE_ID, pin_count: 0, dirty: false }
    }

    /// A frame holding page `id` with zero bytes, pinned once and clean.
    pub fn with_id(id: PageId) -> (r: Self)
        ensures
            r@ == PageModel::fresh(id),
    {
        PageInternal { data: zeroed_page(), id, pin_count: 1, dirty: false }
    }

    /// A copy of the frame's bytes.
    pub fn get_data(&self) -> (r: Vec<u8>)
        ensures
            r@ == self@.data,
    {
        copy_bytes(&self.data)
    }

    pub fn get_id(&self) -> (r: PageId)
        ensures
            r == self@.id,
    {
        self.id
    }

    pub fn get_pin_count(&self) -> (r: usize)
        ensures
            r == self@.pin_count,
    {
        self.pin_count
    }

    pub fn is_dirty(&self) -> (r: bool)
        ensures
            r == self@.dirty,
    {
        self.dirty
    }

    pub(crate) fn set_pin_count(&mut self, pin_count: usize)
        ensures
            final(self)@ == (PageModel { pin_count, ..old(self)@ }),
    {
        self.pin_count = pin_count;
    }

    pub(crate) fn set_dirty(&mut self, dirty: bool)
        ensures
            final(self)@ == (PageModel { dirty, ..old(self)@ }),
    {
        self.dirty = dirty;
    }

    pub(crate) fn set_data(&mut self, data: Vec<u8>)
        ensures
            final(self)@ == (PageModel { data: data@, ..old(self)@ }),
    {
        self.data = data;
    }
}

} // verus!
