use vstd::prelude::*;

verus! {

/// Thrown by a component that reads a promise which has not settled yet, so
/// that the nearest suspense boundary shows its fallback.
#[derive(Debug, Clone, Copy, PartialEq, Eq, Structural)]
pub struct SuspenseException;

impl SuspenseException {
    /// The message of the exception.
    pub fn message(&self) -> (r: &'static str)
        ensures
            r@ == "It's not a true mistake, but part of Suspense's job. If you catch the error, keep throwing it out"@,
    {
        "It's not a true mistake, but part of Suspense's job. If you catch the error, keep throwing it out"
    }
}

/// Reads the value of a thenable (given by its handle). No thenable is
/// tracked as settled, so reading one always suspends.
pub fn track_used_thenable(usable: u64) -> (r: Result<u64, SuspenseException>)
    ensures
        r == Err::<u64, SuspenseException>(SuspenseException),
{
    Err(SuspenseException)
}

} // verus!
