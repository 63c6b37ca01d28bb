use vstd::prelude::*;

verus! {

/// The suspense boundaries that enclose the fiber being rendered, innermost
/// last, each given by the id of its fiber.
pub struct SuspenseHandlerStack {
    pub handlers: Vec<u32>,
}

impl SuspenseHandlerStack {
    /// No enclosing boundary.
    pub fn new() -> (r: SuspenseHandlerStack)
        ensures
            r.handlers@ == Seq::<u32>::empty(),
    {
        SuspenseHandlerStack { handlers: Vec::new() }
    }

    /// The innermost enclosing boundary.
    pub fn get_suspense_handler(&self) -> (r: u32)
        requires
            self.handlers@.len() > 0,
        ensures
            r == self.handlers@.last(),
    {
        self.handlers[self.handlers.len() - 1]
    }

    /// Enters the boundary `handler`.
    pub fn push_suspense_handler(&mut self, handler: u32)
        ensures
            final(self).handlers@ == old(self).handlers@.push(handler),
    {
        self.handlers.push(handler);
    }

    /// Leaves the innermost boundary; nothing happens when there is none.
    pub fn pop_suspense_handler(&mut self)
        ensures
            old(self).handlers@.len() > 0 ==> final(self).handlers@ == old(self).handlers@.drop_last(),
            old(self).handlers@.len() == 0 ==> final(self).handlers@ == old(self).handlers@,
    {
        let _ = self.handlers.pop();
    }
}

/// Leaving a boundary that was just entered gives back the stack as it was,
/// and the boundary entered is the innermost one until then.
pub proof fn lemma_push_pop_suspense_handler(handlers: Seq<u32>, handler: u32)
    ensures
        handlers.push(handler).last() == handler,
        handlers.push(handler).drop_last() == handlers,
{
    assert(handlers.push(handler).drop_last() =~= handlers);
}

} // verus!
