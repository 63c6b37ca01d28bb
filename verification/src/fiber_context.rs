use vstd::prelude::*;
use crate::lanes::Lane;
use crate::lanes::merge_lanes;
use crate::work_tags::WorkTag;

verus! {

/// The values that context providers hid while they are being rendered:
/// `prev_value` is the value the innermost provider replaced, and `stack`
/// the values the outer ones replaced, outermost first. A value is the
/// handle of a JavaScript value; `None` is `null`.
pub struct ContextStack {
    pub prev_value: Option<u64>,
    pub stack: Vec<Option<u64>>,
}

/// The state of a context stack as plain values.
pub struct ContextStackView {
    pub prev_value: Option<u64>,
    pub stack: Seq<Option<u64>>,
}

/// The stack after a provider replaced the context's value `current`.
pub open spec fn pushed(s: ContextStackView, current: Option<u64>) -> ContextStackView {
    ContextStackView { prev_value: current, stack: s.stack.push(s.prev_value) }
}

/// The stack after the innermost provider was left.
pub open spec fn popped(s: ContextStackView) -> ContextStackView {
    if s.stack.len() == 0 {
        ContextStackView { prev_value: None, stack: s.stack }
    } else {
        ContextStackView { prev_value: s.stack.last(), stack: s.stack.drop_last() }
    }
}

impl View for ContextStack {
    type V = ContextStackView;

    open spec fn view(&self) -> ContextStackView {
        ContextStackView { prev_value: self.prev_value, stack: self.stack@ }
    }
}

impl ContextStack {
    /// No provider is being rendered.
    pub fn new() -> (r: ContextStack)
        ensures
            r@.prev_value is None,
            r@.stack == Seq::<Option<u64>>::empty(),
    {
        ContextStack { prev_value: None, stack: Vec::new() }
    }

    /// Enters a provider of `new_value` for a context whose value is
    /// `current`. Returns the value the context holds from now on.
    pub fn push_provider(&mut self, current: Option<u64>, new_value: Option<u64>) -> (r: Option<u64>)
        ensures
            final(self)@ == pushed(old(self)@, current),
            r == new_value,
    {
        self.stack.push(self.prev_value);
        self.prev_value = current;
        new_value
    }

    /// Leaves the innermost provider. Returns the value the context holds
    /// from now on: the one the provider replaced.
    pub fn pop_provider(&mut self) -> (r: Option<u64>)
        ensures
            final(self)@ == popped(old(self)@),
            r == old(self)@.prev_value,
    {
        let restored = self.prev_value;
        match self.stack.pop() {
            Some(top) => {
                self.prev_value = top;
            },
            None => {
                self.prev_value = None;
            },
        }
        restored
    }
}

/// Leaving a provider right after entering it gives the context back the
/// value it had before, and leaves the stack as it was.
pub proof fn lemma_pop_undoes_push(s: ContextStackView, current: Option<u64>)
    ensures
        popped(pushed(s, current)).prev_value == s.prev_value,
        popped(pushed(s, current)).stack == s.stack,
        pushed(s, current).prev_value == current,
{
    assert(s.stack.push(s.prev_value).drop_last() =~= s.stack);
}

/// A fiber of the subtree of a context provider, as far as propagating a
/// change of the context reads it: its kind, its type (a handle), its lanes
/// and child lanes and those of its alternate when it has one, the contexts
/// it read in its last render (`None` when it read none) with the lanes of
/// those reads, and its children.
pub struct ContextFiber {
    pub tag: WorkTag,
    pub type_handle: u64,
    pub lanes: Lane,
    pub child_lanes: Lane,
    pub alternate_lanes: Option<(Lane, Lane)>,
    pub dependencies: Option<Vec<u64>>,
    pub dependency_lanes: Lane,
    pub children: Vec<ContextFiber>,
}

/// The fiber read the context `context` in its last render.
pub open spec fn reads_context(f: ContextFiber, context: u64) -> bool {
    f.dependencies matches Some(d) && d@.contains(context)
}

/// The search goes below the fiber: unless it read no context and is a
/// provider of the same context (which gives its subtree its own value).
pub open spec fn searched_below(f: ContextFiber, provider_type: u64) -> bool {
    f.dependencies is Some || !(f.tag == WorkTag::ContextProvider && f.type_handle == provider_type)
}

/// The fiber or a fiber of its searched subtree read the context.
pub open spec fn has_reader(f: ContextFiber, context: u64, provider_type: u64) -> bool
    decreases f,
{
    reads_context(f, context) || (searched_below(f, provider_type) && exists|i: int|
        0 <= i < f.children@.len() && has_reader(#[trigger] f.children@[i], context, provider_type))
}

/// Some child of `f` has a reader in its searched subtree.
pub open spec fn reader_in_children(f: ContextFiber, context: u64, provider_type: u64) -> bool {
    exists|i: int| 0 <= i < f.children@.len() && has_reader(#[trigger] f.children@[i], context, provider_type)
}

/// `l` with `lane` added when `add` holds.
pub open spec fn marked(l: Lane, lane: Lane, add: bool) -> u32 {
    if add { l@ | lane@ } else { l@ }
}

/// The alternate lanes `a` after `lane` was added to the lanes (`own`) and
/// to the child lanes (`below`).
pub open spec fn alternate_marked(o: Option<(Lane, Lane)>, n: Option<(Lane, Lane)>, lane: Lane, own: bool, below: bool) -> bool {
    &&& n is Some == o is Some
    &&& o matches Some(a) ==> n.unwrap().0@ == marked(a.0, lane, own) && n.unwrap().1@ == marked(a.1, lane, below)
}

/// `n` is the fiber `o` after a change of `context` was propagated through
/// it: a reader of the context gets `lane` in its lanes and in the lanes of
/// its reads; a fiber above a reader, within the searched part, gets `lane`
/// in its child lanes; the alternates get the same lanes; a subtree that is
/// not searched is kept as it was.
pub open spec fn propagated(o: ContextFiber, n: ContextFiber, context: u64, provider_type: u64, lane: Lane) -> bool
    decreases o,
{
    let reads = reads_context(o, context);
    let below = searched_below(o, provider_type) && reader_in_children(o, context, provider_type);
    &&& n.tag == o.tag
    &&& n.type_handle == o.type_handle
    &&& n.dependencies == o.dependencies
    &&& n.lanes@ == marked(o.lanes, lane, reads)
    &&& n.dependency_lanes@ == marked(o.dependency_lanes, lane, reads)
    &&& n.child_lanes@ == marked(o.child_lanes, lane, below)
    &&& alternate_marked(o.alternate_lanes, n.alternate_lanes, lane, reads, below)
    &&& n.children@.len() == o.children@.len()
    &&& searched_below(o, provider_type) ==> forall|i: int|
        0 <= i < o.children@.len() ==> propagated(o.children@[i], #[trigger] n.children@[i], context, provider_type, lane)
    &&& !searched_below(o, provider_type) ==> n.children == o.children
}

/// Whether `deps` holds `context`.
fn contains_context(deps: &Vec<u64>, context: u64) -> (r: bool)
    ensures
        r == deps@.contains(context),
{
    let mut i: usize = 0;
    while i < deps.len()
        invariant
            i <= deps@.len(),
            forall|k: int| 0 <= k < i ==> deps@[k] != context,
        decreases deps@.len() - i,
    {
        if deps[i] == context {
            assert(deps@[i as int] == context);
            return true;
        }
        i = i + 1;
    }
    false
}

/// Propagates a change of `context` (provided by fibers of type
/// `provider_type`) through the fiber `f` and its subtree. Returns the fiber
/// and whether a reader was found.
fn propagate_fiber(f: ContextFiber, context: u64, provider_type: u64, lane: Lane) -> (r: (ContextFiber, bool))
    ensures
        propagated(f, r.0, context, provider_type, lane),
        r.1 == has_reader(f, context, provider_type),
    decreases f,
{
    let ghost f0 = f;
    let reads = match &f.dependencies {
        Some(d) => contains_context(d, context),
        None => false,
    };
    let below = f.dependencies.is_some() || !(f.tag == WorkTag::ContextProvider && f.type_handle == provider_type);
    let ContextFiber { tag, type_handle, lanes, child_lanes, alternate_lanes, dependencies, dependency_lanes, children } = f;
    let ghost orig = children@;
    let n_children = children.len();
    let mut found_below = false;
    let new_children: Vec<ContextFiber>;
    if below {
        let mut rest = children;
        let mut done: Vec<ContextFiber> = Vec::new();
        let mut k: usize = 0;
        while rest.len() > 0
            invariant
                orig == f0.children@,
                f0 == f,
                n_children == orig.len(),
                k + rest@.len() == orig.len(),
                rest@ == orig.skip(k as int),
                done@.len() == k,
                forall|j: int| 0 <= j < k ==> propagated(orig[j], #[trigger] done@[j], context, provider_type, lane),
                found_below == exists|j: int| 0 <= j < k && has_reader(#[trigger] orig[j], context, provider_type),
            decreases rest@.len(),
        {
            let c = rest.remove(0);
            proof {
                assert(c == orig[k as int]);
                assert(decreases_to!(f0 => f0.children));
                assert(decreases_to!(f0.children => f0.children@));
                assert(decreases_to!(f0.children@ => f0.children@[k as int]));
            }
            let (nc, fb) = propagate_fiber(c, context, provider_type, lane);
            done.push(nc);
            proof {
                if fb {
                    assert(has_reader(orig[k as int], context, provider_type));
                }
            }
            found_below = found_below || fb;
            k = k + 1;
            assert(rest@ =~= orig.skip(k as int));
        }
        new_children = done;
    } else {
        new_children = children;
    }
    let add_child = below && found_below;
    let new_lanes = if reads { merge_lanes(lanes, lane) } else { lanes };
    let new_dependency_lanes = if reads { merge_lanes(dependency_lanes, lane) } else { dependency_lanes };
    let new_child_lanes = if add_child { merge_lanes(child_lanes, lane) } else { child_lanes };
    let new_alternate = match alternate_lanes {
        Some(a) => Some((
            if reads { merge_lanes(a.0, lane) } else { a.0 },
            if add_child { merge_lanes(a.1, lane) } else { a.1 },
        )),
        None => None,
    };
    let n = ContextFiber {
        tag,
        type_handle,
        lanes: new_lanes,
        child_lanes: new_child_lanes,
        alternate_lanes: new_alternate,
        dependencies,
        dependency_lanes: new_dependency_lanes,
        children: new_children,
    };
    (n, reads || add_child)
}

/// `r` is the provider `w` after a change of `context` was propagated from
/// it with `lane` (see `propagate_context_change`).
pub open spec fn change_propagated(w: ContextFiber, r: ContextFiber, context: u64, lane: Lane) -> bool {
        ({
            let found = reader_in_children(w, context, w.type_handle);
            &&& r.tag == w.tag
            &&& r.type_handle == w.type_handle
            &&& r.dependencies == w.dependencies
            &&& r.lanes == w.lanes
            &&& r.dependency_lanes == w.dependency_lanes
            &&& r.child_lanes@ == marked(w.child_lanes, lane, found)
            &&& alternate_marked(w.alternate_lanes, r.alternate_lanes, lane, false, found)
            &&& r.children@.len() == w.children@.len()
            &&& forall|i: int|
                0 <= i < w.children@.len() ==> propagated(
                    w.children@[i],
                    #[trigger] r.children@[i],
                    context,
                    w.type_handle,
                    lane,
                )
        })
}

/// Propagates a change of the value of `context` from the provider `wip`
/// (whose type is that of the context's providers) to its subtree: every
/// fiber that read the context, searching below every fiber but the
/// providers of the same context that read none, gets `lane` in its lanes and
/// in the lanes of its reads, and every fiber on the way from the provider
/// down to a reader gets `lane` in its child lanes; alternates get the same
/// lanes. The provider's own lanes and reads are not looked at.
pub fn propagate_context_change(wip: ContextFiber, context: u64, lane: Lane) -> (r: ContextFiber)
    ensures
        change_propagated(wip, r, context, lane),
{
    let ghost w0 = wip;
    let provider_type = wip.type_handle;
    let ContextFiber { tag, type_handle, lanes, child_lanes, alternate_lanes, dependencies, dependency_lanes, children } = wip;
    let ghost orig = children@;
    let n_children = children.len();
    let mut rest = children;
    let mut done: Vec<ContextFiber> = Vec::new();
    let mut found = false;
    let mut k: usize = 0;
    while rest.len() > 0
        invariant
            orig == w0.children@,
            provider_type == w0.type_handle,
            n_children == orig.len(),
            k + rest@.len() == orig.len(),
            rest@ == orig.skip(k as int),
            done@.len() == k,
            forall|j: int| 0 <= j < k ==> propagated(orig[j], #[trigger] done@[j], context, provider_type, lane),
            found == exists|j: int| 0 <= j < k && has_reader(#[trigger] orig[j], context, provider_type),
        decreases rest@.len(),
    {
        let c = rest.remove(0);
        assert(c == orig[k as int]);
        let (nc, fb) = propagate_fiber(c, context, provider_type, lane);
        done.push(nc);
        proof {
            if fb {
                assert(has_reader(orig[k as int], context, provider_type));
            }
        }
        found = found || fb;
        k = k + 1;
        assert(rest@ =~= orig.skip(k as int));
    }
    let new_child_lanes = if found { merge_lanes(child_lanes, lane) } else { child_lanes };
    let new_alternate = match alternate_lanes {
        Some(a) => Some((a.0, if found { merge_lanes(a.1, lane) } else { a.1 })),
        None => None,
    };
    ContextFiber {
        tag,
        type_handle,
        lanes,
        child_lanes: new_child_lanes,
        alternate_lanes: new_alternate,
        dependencies,
        dependency_lanes,
        children: done,
    }
}

/// The contexts a function component read in its render, in order (by
/// handle), and the lanes in which their providers changed.
pub struct ContextDependencies {
    pub contexts: Vec<u64>,
    pub lanes: Lane,
}

/// Prepares a function component to read contexts in `render_lane`. Returns
/// whether it received an update: a context it read last time changed in a
/// lane being rendered. The reads of last time are forgotten.
pub fn prepare_to_read_context(deps: &mut Option<ContextDependencies>, render_lane: Lane) -> (r: bool)
    ensures
        *old(deps) is None ==> !r && *final(deps) is None,
        *old(deps) matches Some(d) ==> {
            &&& r == (d.contexts@.len() > 0 && d.lanes@ & render_lane@ != 0)
            &&& *final(deps) is Some
            &&& (*final(deps)).unwrap().lanes == d.lanes
            &&& (*final(deps)).unwrap().contexts@ == Seq::<u64>::empty()
        },
{
    match deps {
        None => false,
        Some(d) => {
            let mut received = false;
            if d.contexts.len() > 0 {
                received = crate::lanes::include_some_lanes(d.lanes, render_lane);
                d.contexts = Vec::new();
            }
            received
        },
    }
}

/// Records that the component being rendered read `context`: the first read
/// of a render starts new dependencies (with no lane), later ones are added
/// after it. `first_read` tells whether it is the first read of the render.
pub fn read_context(deps: &mut Option<ContextDependencies>, first_read: bool, context: u64)
    requires
        !first_read ==> *old(deps) is Some,
    ensures
        first_read ==> *final(deps) is Some && (*final(deps)).unwrap().contexts@ == seq![context]
            && (*final(deps)).unwrap().lanes@ == 0,
        !first_read ==> *final(deps) is Some && (*final(deps)).unwrap().contexts@ == (*old(deps)).unwrap().contexts@.push(
            context,
        ) && (*final(deps)).unwrap().lanes == (*old(deps)).unwrap().lanes,
{
    if first_read {
        let mut contexts: Vec<u64> = Vec::new();
        contexts.push(context);
        *deps = Some(ContextDependencies { contexts, lanes: Lane::no_lane() });
    } else {
        match deps {
            Some(d) => {
                d.contexts.push(context);
            },
            None => {},
        }
    }
}

/// The context stack `s` after the steps `ops`, in order: `Some(current)`
/// enters a provider of a context whose value is `current`, `None` leaves
/// the innermost provider.
pub open spec fn apply_ops(s: ContextStackView, ops: Seq<Option<Option<u64>>>) -> ContextStackView
    decreases ops.len(),
{
    if ops.len() == 0 {
        s
    } else {
        let t = apply_ops(s, ops.drop_last());
        match ops.last() {
            Some(current) => pushed(t, current),
            None => popped(t),
        }
    }
}

/// How many providers the steps `ops` leave entered.
pub open spec fn depth(ops: Seq<Option<Option<u64>>>) -> int
    decreases ops.len(),
{
    if ops.len() == 0 {
        0
    } else {
        depth(ops.drop_last()) + if ops.last() is Some { 1int } else { -1int }
    }
}

/// No step of `ops` leaves a provider that `ops` did not enter.
pub open spec fn never_below(ops: Seq<Option<Option<u64>>>) -> bool
    decreases ops.len(),
{
    ops.len() == 0 || (never_below(ops.drop_last()) && depth(ops) >= 0)
}

/// What steps that never leave more providers than they entered do to the
/// stack: the entries below stay, and with providers still entered the
/// first entry above them is the value the innermost provider had hidden.
proof fn lemma_ops_keep_below(s: ContextStackView, ops: Seq<Option<Option<u64>>>)
    requires
        never_below(ops),
    ensures
        apply_ops(s, ops).stack.len() == s.stack.len() + depth(ops),
        apply_ops(s, ops).stack.take(s.stack.len() as int) == s.stack,
        depth(ops) == 0 ==> apply_ops(s, ops).prev_value == s.prev_value,
        depth(ops) > 0 ==> apply_ops(s, ops).stack[s.stack.len() as int] == s.prev_value,
    decreases ops.len(),
{
    if ops.len() > 0 {
        let q = ops.drop_last();
        lemma_ops_keep_below(s, q);
        let t = apply_ops(s, q);
        let l = s.stack.len() as int;
        assert(never_below(q));
        assert(depth(q) >= 0);
        assert(apply_ops(s, ops) == match ops.last() {
            Some(current) => pushed(t, current),
            None => popped(t),
        });
        match ops.last() {
            Some(current) => {
                assert(t.stack.push(t.prev_value).take(l) =~= t.stack.take(l));
            },
            None => {
                assert(depth(q) >= 1);
                assert(t.stack.len() > 0);
                assert(t.stack.drop_last().take(l) =~= t.stack.take(l));
                if depth(q) == 1 {
                    assert(t.stack.last() == t.stack[l]);
                }
            },
        }
    }
}

/// Steps that leave every provider they enter give the context stack back
/// as it was.
pub proof fn lemma_balanced_restores(s: ContextStackView, ops: Seq<Option<Option<u64>>>)
    requires
        never_below(ops),
        depth(ops) == 0,
    ensures
        apply_ops(s, ops) == s,
{
    lemma_ops_keep_below(s, ops);
    let t = apply_ops(s, ops);
    assert(t.stack =~= t.stack.take(s.stack.len() as int));
}

/// A provider entered when its context had the value `current`, left after
/// steps that leave every provider they enter, gives its context `current`
/// back (the value `pop_provider` returns) and leaves the stack as it was
/// before it was entered.
pub proof fn lemma_matched_pop_restores(s: ContextStackView, current: Option<u64>, inner: Seq<Option<Option<u64>>>)
    requires
        never_below(inner),
        depth(inner) == 0,
    ensures
        apply_ops(pushed(s, current), inner).prev_value == current,
        popped(apply_ops(pushed(s, current), inner)) == s,
{
    lemma_balanced_restores(pushed(s, current), inner);
    lemma_pop_undoes_push(s, current);
}

/// The stacks `states` are those that calls of `push_provider` (with the
/// current value `c` for a step `Some(c)`) and `pop_provider` (for `None`)
/// go through for the steps `ops`: each is what its call's contract gives
/// from the one before.
pub open spec fn is_trace(states: Seq<ContextStackView>, ops: Seq<Option<Option<u64>>>) -> bool {
    &&& states.len() == ops.len() + 1
    &&& forall|i: int|
        #![trigger ops[i]]
        0 <= i < ops.len() ==> states[i + 1] == (match ops[i] {
            Some(current) => pushed(states[i], current),
            None => popped(states[i]),
        })
}

/// Calls of `push_provider` and `pop_provider` that leave every provider
/// they enter, and never leave one they did not enter, bring the stack back
/// to where it was; and the stack after any prefix of the calls is what the
/// steps so far give.
pub proof fn lemma_trace_restores(states: Seq<ContextStackView>, ops: Seq<Option<Option<u64>>>)
    requires
        is_trace(states, ops),
        never_below(ops),
        depth(ops) == 0,
    ensures
        states[ops.len() as int] == states[0],
        forall|k: int| 0 <= k <= ops.len() ==> states[k] == apply_ops(states[0], #[trigger] ops.take(k)),
{
    assert forall|k: int| 0 <= k <= ops.len() implies states[k] == apply_ops(states[0], #[trigger] ops.take(k)) by {
        lemma_trace_prefix(states, ops, k);
    }
    lemma_trace_prefix(states, ops, ops.len() as int);
    assert(ops.take(ops.len() as int) =~= ops);
    lemma_balanced_restores(states[0], ops);
}

proof fn lemma_trace_prefix(states: Seq<ContextStackView>, ops: Seq<Option<Option<u64>>>, k: int)
    requires
        is_trace(states, ops),
        0 <= k <= ops.len(),
    ensures
        states[k] == apply_ops(states[0], ops.take(k)),
    decreases k,
{
    if k == 0 {
        assert(ops.take(0) =~= Seq::<Option<Option<u64>>>::empty());
    } else {
        lemma_trace_prefix(states, ops, k - 1);
        assert(ops.take(k).drop_last() =~= ops.take(k - 1));
        assert(ops.take(k).last() == ops[k - 1]);
    }
}

/// A provider of context `cs[i]` entered at step `i` (with the context's
/// value then, `vals[i]`) and left at step `m`, after steps that leave every
/// provider they enter: the pop gives the context back the value it had
/// before the push, and the stack is as it was before the push. Each push
/// hands `push_provider` the value its context holds, and each pop's result
/// is written back into its context (`vals` are the values of the contexts
/// between the steps).
pub proof fn lemma_context_value_restored(
    states: Seq<ContextStackView>,
    ops: Seq<Option<Option<u64>>>,
    vals: Seq<Map<u32, Option<u64>>>,
    cs: Seq<u32>,
    i: int,
    m: int,
)
    requires
        is_trace(states, ops),
        vals.len() == ops.len() + 1,
        cs.len() == ops.len(),
        forall|j: int| #![trigger ops[j]] 0 <= j < ops.len() && ops[j] is Some ==> ops[j] == Some(vals[j][cs[j]]),
        forall|j: int|
            #![trigger ops[j]]
            0 <= j < ops.len() && ops[j] is None ==> vals[j + 1] == vals[j].insert(cs[j], states[j].prev_value),
        0 <= i < m < ops.len(),
        ops[i] is Some,
        ops[m] is None,
        cs[m] == cs[i],
        never_below(ops.subrange(i + 1, m)),
        depth(ops.subrange(i + 1, m)) == 0,
    ensures
        vals[m + 1][cs[i]] == vals[i][cs[i]],
        states[m + 1] == states[i],
{
    let sub_states = states.subrange(i + 1, m + 1);
    let sub_ops = ops.subrange(i + 1, m);
    assert forall|j: int| #![trigger sub_ops[j]] 0 <= j < sub_ops.len() implies sub_states[j + 1] == (match sub_ops[j] {
        Some(current) => pushed(sub_states[j], current),
        None => popped(sub_states[j]),
    }) by {
        assert(sub_ops[j] == ops[i + 1 + j]);
    }
    lemma_trace_restores(sub_states, sub_ops);
    assert(ops[i] == Some(vals[i][cs[i]]));
    assert(states[i + 1] == pushed(states[i], vals[i][cs[i]]));
    assert(states[m] == states[i + 1]);
    lemma_pop_undoes_push(states[i], vals[i][cs[i]]);
    assert(states[m + 1] == popped(states[m]));
}

/// Propagating through a fiber that is not a provider of the changed
/// context's type with no reads of its own: a child that read the context
/// gets `lane` in its lanes and in the lanes of its reads, and the fiber
/// gets `lane` in its child lanes. Providers of other contexts do not stop
/// the search.
pub proof fn lemma_reader_child_gets_lane(
    f: ContextFiber,
    n: ContextFiber,
    context: u64,
    provider_type: u64,
    lane: Lane,
    i: int,
)
    requires
        propagated(f, n, context, provider_type, lane),
        f.dependencies is Some || f.tag != WorkTag::ContextProvider || f.type_handle != provider_type,
        0 <= i < f.children@.len(),
        f.children@[i].dependencies matches Some(d) && d@.contains(context),
    ensures
        n.child_lanes@ == f.child_lanes@ | lane@,
        n.children@[i].lanes@ == f.children@[i].lanes@ | lane@,
        n.children@[i].dependency_lanes@ == f.children@[i].dependency_lanes@ | lane@,
{
    let c = f.children@[i];
    assert(reads_context(c, context));
    assert(has_reader(c, context, provider_type));
    assert(reader_in_children(f, context, provider_type));
    assert(propagated(c, n.children@[i], context, provider_type, lane));
}

/// A change propagated from a provider reaches a fiber that read the context
/// below a child of the provider, whatever provider of another context that
/// child is: the reader gets `lane` in its lanes and in the lanes of its
/// reads, and the child and the provider get `lane` in their child lanes, so
/// the reader renders again.
pub proof fn lemma_change_reaches_grandchild_reader(
    w: ContextFiber,
    r: ContextFiber,
    context: u64,
    lane: Lane,
    i: int,
    j: int,
)
    requires
        change_propagated(w, r, context, lane),
        0 <= i < w.children@.len(),
        w.children@[i].dependencies is Some || w.children@[i].tag != WorkTag::ContextProvider
            || w.children@[i].type_handle != w.type_handle,
        0 <= j < w.children@[i].children@.len(),
        w.children@[i].children@[j].dependencies matches Some(d) && d@.contains(context),
    ensures
        r.child_lanes@ == w.child_lanes@ | lane@,
        r.children@[i].child_lanes@ == w.children@[i].child_lanes@ | lane@,
        r.children@[i].children@[j].lanes@ == w.children@[i].children@[j].lanes@ | lane@,
        r.children@[i].children@[j].dependency_lanes@ == w.children@[i].children@[j].dependency_lanes@ | lane@,
{
    let c = w.children@[i];
    assert(propagated(c, r.children@[i], context, w.type_handle, lane));
    lemma_reader_child_gets_lane(c, r.children@[i], context, w.type_handle, lane, j);
    let g = c.children@[j];
    assert(reads_context(g, context));
    assert(has_reader(g, context, w.type_handle));
    assert(has_reader(c, context, w.type_handle));
    assert(reader_in_children(w, context, w.type_handle));
}

} // verus!
