use vstd::prelude::*;

verus! {

/// Whether updates are being batched into a transition: the number of
/// transitions that are open.
#[derive(Debug, Clone, Copy, PartialEq, Eq, Structural)]
pub struct ReactCurrentBatchConfig {
    pub transition: u32,
}

impl ReactCurrentBatchConfig {
    /// The configuration outside any transition.
    pub fn new() -> (r: ReactCurrentBatchConfig)
        ensures
            r.transition == 0,
    {
        ReactCurrentBatchConfig { transition: 0 }
    }
}

} // verus!
