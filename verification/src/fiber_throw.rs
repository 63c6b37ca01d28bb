use std::collections::HashMap;
use std::collections::HashSet;
use vstd::prelude::*;
use crate::flags::Flags;
use crate::flags::unwind_suspense_flags;
use crate::flags::get_host_effect_mask;
use crate::lanes::Lane;
use crate::work_tags::WorkTag;
use crate::suspense_context::SuspenseHandlerStack;
use crate::fiber_context::ContextStack;
use crate::fiber_context::ContextStackView;
use crate::fiber_context::popped;

verus! {

/// Why the render of a unit of work stopped.
#[derive(Debug, Clone, Copy, PartialEq, Eq, Structural)]
pub enum SuspendedReason {
    NotSuspended,
    OnError,
    OnData,
    OnDeprecatedThrowPromise,
}

/// Why a render stops on a thrown value: a read of a promise that has not
/// settled (the suspense exception) suspends on data; another thenable that
/// was thrown suspends on a thrown promise; anything else is an error.
pub fn handle_throw(is_suspense_exception: bool, is_wakeable: bool) -> (r: SuspendedReason)
    ensures
        is_suspense_exception ==> r == SuspendedReason::OnData,
        !is_suspense_exception && is_wakeable ==> r == SuspendedReason::OnDeprecatedThrowPromise,
        !is_suspense_exception && !is_wakeable ==> r == SuspendedReason::OnError,
{
    if is_suspense_exception {
        SuspendedReason::OnData
    } else if is_wakeable {
        SuspendedReason::OnDeprecatedThrowPromise
    } else {
        SuspendedReason::OnError
    }
}

/// The lanes in which each thenable (by handle) already has a listener that
/// pings the root when it settles.
pub struct PingCache {
    map: HashMap<u64, HashSet<u32>>,
}

impl PingCache {
    /// The listeners as (thenable, lane) pairs.
    pub closed spec fn listeners(&self) -> Set<(u64, u32)> {
        Set::new(|e: (u64, u32)| self.map@.contains_key(e.0) && self.map@[e.0]@.contains(e.1))
    }

    /// No listener.
    pub fn new() -> (r: PingCache)
        ensures
            r.listeners() == Set::<(u64, u32)>::empty(),
    {
        let r = PingCache { map: HashMap::new() };
        assert(r.listeners() =~= Set::<(u64, u32)>::empty());
        r
    }

    /// Whether a listener for `wakeable` in `lane` is recorded.
    pub fn has_listener(&self, wakeable: u64, lane: Lane) -> (r: bool)
        ensures
            r == self.listeners().contains((wakeable, lane@)),
    {
        broadcast use vstd::std_specs::hash::group_hash_axioms;

        match self.map.get(&wakeable) {
            Some(set) => set.contains(&lane.bits()),
            None => false,
        }
    }
}

/// Records that the root waits on `wakeable` in `lane`. Returns whether a
/// listener must be attached to it: only when none was attached for that
/// thenable and lane.
pub fn attach_ping_listener(cache: &mut PingCache, wakeable: u64, lane: Lane) -> (r: bool)
    ensures
        r == !old(cache).listeners().contains((wakeable, lane@)),
        final(cache).listeners() == old(cache).listeners().insert((wakeable, lane@)),
{
    broadcast use vstd::std_specs::hash::group_hash_axioms;

    let bits = lane.bits();
    let mut lanes = match cache.map.remove(&wakeable) {
        Some(set) => set,
        None => HashSet::new(),
    };
    let fresh = lanes.insert(bits);
    cache.map.insert(wakeable, lanes);
    proof {
        assert(cache.listeners() =~= old(cache).listeners().insert((wakeable, bits)));
    }
    fresh
}

/// Forgets every listener of `wakeable`, once it settled and pinged the root.
pub fn ping(cache: &mut PingCache, wakeable: u64)
    ensures
        final(cache).listeners() == old(cache).listeners().filter(|e: (u64, u32)| e.0 != wakeable),
{
    broadcast use vstd::std_specs::hash::group_hash_axioms;

    cache.map.remove(&wakeable);
    proof {
        assert(cache.listeners() =~= old(cache).listeners().filter(|e: (u64, u32)| e.0 != wakeable));
    }
}

/// A fiber on the way from a fiber that threw up to the root: its kind and
/// flags.
#[derive(Debug, Clone, Copy, PartialEq, Eq, Structural)]
pub struct UnwindFiber {
    pub tag: WorkTag,
    pub flags: Flags,
}

/// The fiber at `i` catches: a suspense boundary that must capture and has
/// not captured yet.
pub open spec fn catches(path: Seq<UnwindFiber>, i: int) -> bool {
    path[i].tag == WorkTag::SuspenseComponent && path[i].flags@ & 0x1000 != 0 && path[i].flags@ & 0x40 == 0
}

/// The number of suspense boundaries among `p`.
pub open spec fn suspense_count(p: Seq<UnwindFiber>) -> nat
    decreases p.len(),
{
    if p.len() == 0 {
        0
    } else {
        suspense_count(p.drop_last()) + if p.last().tag == WorkTag::SuspenseComponent { 1nat } else { 0nat }
    }
}

/// The number of context providers among `p`.
pub open spec fn provider_count(p: Seq<UnwindFiber>) -> nat
    decreases p.len(),
{
    if p.len() == 0 {
        0
    } else {
        provider_count(p.drop_last()) + if p.last().tag == WorkTag::ContextProvider { 1nat } else { 0nat }
    }
}

/// The suspense handler stack `s` after `k` pops (a pop of an empty stack
/// does nothing).
pub open spec fn after_pops(s: Seq<u32>, k: nat) -> Seq<u32> {
    if k >= s.len() {
        Seq::empty()
    } else {
        s.take(s.len() - k)
    }
}

/// The context stack `s` after `n` providers were left.
pub open spec fn pop_n(s: ContextStackView, n: nat) -> ContextStackView
    decreases n,
{
    if n == 0 {
        s
    } else {
        popped(pop_n(s, (n - 1) as nat))
    }
}

/// The context values restored by leaving `n` providers from `s`, in order.
pub open spec fn restored_values(s: ContextStackView, n: nat) -> Seq<Option<u64>>
    decreases n,
{
    if n == 0 {
        Seq::empty()
    } else {
        restored_values(s, (n - 1) as nat).push(pop_n(s, (n - 1) as nat).prev_value)
    }
}

/// The number of fibers unwinding leaves: up to and including the catching
/// boundary, or all of them.
pub open spec fn unwound(path: Seq<UnwindFiber>, r: Option<(usize, Flags)>) -> int {
    match r {
        Some((i, _)) => i + 1,
        None => path.len() as int,
    }
}

/// Unwinds from a fiber that threw along `path` (the fiber, then its
/// ancestors up to the root). The first suspense boundary that must capture
/// catches: its capture request becomes a capture, its flags are cut down to
/// the host effect flags, and the render goes on from it; returned are its
/// index and flags. When none catches, the render does not complete
/// (`None`). Every fiber up to the catching one (or every fiber) is left: a
/// suspense boundary pops the suspense handler stack once, a context
/// provider leaves its context on `contexts`; also returned are the values
/// the providers' contexts get back, in order.
pub fn unwind_unit_of_work(
    path: &Vec<UnwindFiber>,
    handlers: &mut SuspenseHandlerStack,
    contexts: &mut ContextStack,
) -> (r: (Option<(usize, Flags)>, Vec<Option<u64>>))
    ensures
        r.0 matches Some((i, f)) ==> i < path@.len() && catches(path@, i as int) && f@ == ((
        path@[i as int].flags@ & !0x1000u16) | 0x40) & 0x5F && forall|k: int|
            0 <= k < i ==> !#[trigger] catches(path@, k),
        r.0 is None ==> forall|k: int| 0 <= k < path@.len() ==> !#[trigger] catches(path@, k),
        ({
            let v = path@.take(unwound(path@, r.0));
            &&& final(handlers).handlers@ == after_pops(old(handlers).handlers@, suspense_count(v))
            &&& final(contexts)@ == pop_n(old(contexts)@, provider_count(v))
            &&& r.1@ == restored_values(old(contexts)@, provider_count(v))
        }),
{
    let mut restored: Vec<Option<u64>> = Vec::new();
    let mut found: Option<(usize, Flags)> = None;
    let mut i: usize = 0;
    while i < path.len()
        invariant_except_break
            found is None,
            forall|k: int| 0 <= k < i ==> !#[trigger] catches(path@, k),
        invariant
            i <= path@.len(),
            handlers.handlers@ == after_pops(old(handlers).handlers@, suspense_count(path@.take(i as int))),
            contexts@ == pop_n(old(contexts)@, provider_count(path@.take(i as int))),
            restored@ == restored_values(old(contexts)@, provider_count(path@.take(i as int))),
        ensures
            found matches Some((j, f)) ==> j + 1 == i && j < path@.len() && catches(path@, j as int) && f@ == ((
            path@[j as int].flags@ & !0x1000u16) | 0x40) & 0x5F && forall|k: int|
                0 <= k < j ==> !#[trigger] catches(path@, k),
            found is None ==> i == path@.len() && forall|k: int| 0 <= k < path@.len() ==> !#[trigger] catches(path@, k),
            handlers.handlers@ == after_pops(old(handlers).handlers@, suspense_count(path@.take(i as int))),
            contexts@ == pop_n(old(contexts)@, provider_count(path@.take(i as int))),
            restored@ == restored_values(old(contexts)@, provider_count(path@.take(i as int))),
        decreases path@.len() - i,
    {
        let fiber = path[i];
        proof {
            assert(path@.take(i + 1).drop_last() =~= path@.take(i as int));
            assert(path@.take(i + 1).last() == fiber);
        }
        if fiber.tag == WorkTag::SuspenseComponent {
            let ghost before = handlers.handlers@;
            handlers.pop_suspense_handler();
            proof {
                let k = suspense_count(path@.take(i as int));
                let o = old(handlers).handlers@;
                if k + 1 >= o.len() {
                    assert(handlers.handlers@ =~= Seq::<u32>::empty());
                } else {
                    assert(handlers.handlers@ =~= o.take(o.len() - (k + 1)));
                }
            }
            let f = unwind_suspense_flags(fiber.flags);
            if let Some(f) = f {
                found = Some((i, f.intersection(&get_host_effect_mask())));
                i = i + 1;
                break;
            }
        } else if fiber.tag == WorkTag::ContextProvider {
            let value = contexts.pop_provider();
            restored.push(value);
        }
        i = i + 1;
    }
    (found, restored)
}

/// Handles a value thrown while rendering in `lane`: a thenable makes the
/// innermost suspense boundary (the last of `handlers`, if any) capture,
/// and the root waits on it. Returns the boundary to mark as having to
/// capture, and whether a listener must be attached to the thenable.
pub fn throw_exception(
    is_wakeable: bool,
    handlers: &Vec<u32>,
    cache: &mut PingCache,
    wakeable: u64,
    lane: Lane,
) -> (r: (Option<u32>, bool))
    ensures
        !is_wakeable ==> r == (None::<u32>, false) && final(cache).listeners() == old(cache).listeners(),
        is_wakeable ==> {
            &&& r.0 == (if handlers@.len() > 0 { Some(handlers@.last()) } else { None })
            &&& r.1 == !old(cache).listeners().contains((wakeable, lane@))
            &&& final(cache).listeners() == old(cache).listeners().insert((wakeable, lane@))
        },
{
    if !is_wakeable {
        return (None, false);
    }
    let boundary = if handlers.len() > 0 { Some(handlers[handlers.len() - 1]) } else { None };
    let attach = attach_ping_listener(cache, wakeable, lane);
    (boundary, attach)
}

} // verus!
