//! Small traits shared by the parts that draw.

use vstd::prelude::*;

verus! {

/// Something that can be wiped before it is drawn again.
pub trait Clear<'a> {
    /// Wipes the surface.
    fn clear(&'a mut self);
}

} // verus!
