use vstd::prelude::*;

verus! {

/// A host element, as the renderer of a platform defines it.
pub trait Ele {}

} // verus!
