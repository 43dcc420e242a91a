use vstd::prelude::*;

verus! {

/// Locator of an object stored in a page.
#[derive(Clone, Copy, PartialEq, Eq, Structural, PartialOrd, Ord, Debug)]
pub struct ObjectPtr {
    pub loc: usize,
}

impl ObjectPtr {
    /// The locator of the first object.
    pub fn new() -> (r: Self)
        ensures
            r.loc == 0,
    {
        ObjectPtr { loc: 0 }
    }
}

} // verus!
