use vstd::prelude::*;

verus! {

/// Callbacks of synchronous renders waiting to run, oldest first, each given
/// by a handle, and whether they are being run.
pub struct SyncTaskQueue {
    pub queue: Vec<u64>,
    pub is_flushing: bool,
}

impl SyncTaskQueue {
    /// No callback waits.
    pub fn new() -> (r: SyncTaskQueue)
        ensures
            r.queue@ == Seq::<u64>::empty(),
            !r.is_flushing,
    {
        SyncTaskQueue { queue: Vec::new(), is_flushing: false }
    }

    /// Adds `callback` to the waiting callbacks.
    pub fn schedule_sync_callback(&mut self, callback: u64)
        ensures
            final(self).queue@ == old(self).queue@.push(callback),
            final(self).is_flushing == old(self).is_flushing,
    {
        self.queue.push(callback);
    }

    /// Starts running the waiting callbacks. When none waits, or they are
    /// being run already, nothing is to run (`None`); otherwise the queue is
    /// marked as being run and the callbacks to call, in order, are returned.
    pub fn begin_flush_sync_callbacks(&mut self) -> (r: Option<Vec<u64>>)
        ensures
            (old(self).is_flushing || old(self).queue@.len() == 0) ==> r is None && *final(self)
                == *old(self),
            !(old(self).is_flushing || old(self).queue@.len() == 0) ==> r is Some && r.unwrap()@
                == old(self).queue@ && final(self).is_flushing && final(self).queue@ == old(
                self,
            ).queue@,
    {
        if !self.is_flushing && self.queue.len() > 0 {
            self.is_flushing = true;
            let mut to_run: Vec<u64> = Vec::new();
            let mut i: usize = 0;
            while i < self.queue.len()
                invariant
                    i <= self.queue@.len(),
                    to_run@ == self.queue@.take(i as int),
                decreases self.queue@.len() - i,
            {
                to_run.push(self.queue[i]);
                i = i + 1;
                assert(to_run@ =~= self.queue@.take(i as int));
            }
            assert(to_run@ =~= self.queue@);
            return Some(to_run);
        }
        None
    }

    /// Ends a run of the callbacks: every waiting callback is dropped, those
    /// scheduled during the run too, and the queue can be run again.
    pub fn end_flush_sync_callbacks(&mut self)
        ensures
            final(self).queue@ == Seq::<u64>::empty(),
            !final(self).is_flushing,
    {
        self.queue = Vec::new();
        self.is_flushing = false;
    }
}

} // verus!
