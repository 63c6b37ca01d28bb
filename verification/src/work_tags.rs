use vstd::prelude::*;

verus! {

/// The kind of a fiber, which decides how it is rendered and completed.
#[derive(Debug, Clone, Copy, PartialEq, Eq, Structural)]
pub enum WorkTag {
    FunctionComponent,
    HostRoot,
    HostComponent,
    HostText,
    Fragment,
    ContextProvider,
    SuspenseComponent,
    MemoComponent,
}

/// The kind of the fiber made for an element: a host element when its type
/// is a string (a tag name), a function component otherwise.
pub fn create_fiber_from_element(type_is_string: bool) -> (r: WorkTag)
    ensures
        r == (if type_is_string { WorkTag::HostComponent } else { WorkTag::FunctionComponent }),
{
    if type_is_string {
        WorkTag::HostComponent
    } else {
        WorkTag::FunctionComponent
    }
}

} // verus!
