use vstd::prelude::*;

pub mod bufmgr;
pub mod codec;
pub mod index_page;
pub mod lru_replacer;
pub mod objptr;
pub mod page;
pub mod replacer;
pub mod shared;

verus! {

} // verus!
