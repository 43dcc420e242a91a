use vstd::prelude::*;

verus! {

/// Identifier of a logical page on disk.
pub type PageId = isize;

/// Index of an in-memory buffer slot.
pub type FrameId = isize;

/// Identifier of a stored object.
pub type Oid = u16;

/// Page id reserved by convention for catalog/header metadata.
pub const HEADER_ID: usize = 0;

/// Size in bytes of every page, on disk and in memory.
pub const PAGE_SIZE: usize = 4096;

/// Sentinel frame id: no frame.
pub const INVALID_FRAME_ID: isize = -1;

/// Sentinel page id: no page.
pub const INVALID_PAGE_ID: isize = -1;

/// Byte offset of page `id` in the backing file.
pub open spec fn page_offset_spec(id: int) -> int {
    id * PAGE_SIZE as int
}

/// Byte offset at which page `id` starts in the backing file.
pub fn page_offset(id: PageId) -> (r: u64)
    requires
        0 <= id,
        id as int * PAGE_SIZE as int <= u64::MAX,
    ensures
        r as int == page_offset_spec(id as int),
{
    (id as u64) * (PAGE_SIZE as u64)
}

} // verus!
