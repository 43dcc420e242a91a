use vstd::prelude::*;

verus! {

/// A page of an index built on top of the buffer pool; it carries no state here.
pub struct IndexPage {}

} // verus!
