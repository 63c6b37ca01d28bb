use vstd::prelude::*;
use crate::lanes::Lane;
use crate::lanes::include_some_lanes;
use crate::lanes::lemma_lane_view_injective;
use crate::work_tags::WorkTag;
use crate::flags::Flags;
use crate::complete_work::FiberTree;
use crate::child_fiber::ChildrenPlan;
use crate::child_fiber::NewChildren;
use crate::child_fiber::OldChild;
use crate::child_fiber::reconcile_child_fibers;
use crate::child_fiber::reconciled;
use crate::child_fiber::reconcilable;
use crate::update_queue::UpdateQueue;
use crate::update_queue::Update;
use crate::update_queue::process_update_queue;
use crate::update_queue::processed;
use crate::update_queue::first_skip;
use crate::update_queue::skipped;
use crate::update_queue::last_applied;

verus! {

/// How the work on a fiber begins.
#[derive(Debug, Clone, Copy, PartialEq, Eq, Structural)]
pub enum BeginStep {
    /// Nothing in the subtree has work in the render lanes: skip it.
    SkipSubtree,
    /// The fiber has no work but its subtree has: reuse its children and go
    /// on with them.
    CloneChildren,
    /// Render the fiber; its own lanes are cleared first.
    Render,
}

/// What beginning the work on a fiber reads of it.
#[derive(Debug, Clone, Copy, PartialEq, Eq, Structural)]
pub struct BeginWorkInput {
    /// The fiber has a current fiber (it was rendered before).
    pub has_current: bool,
    /// Its props or type are not those of its current fiber.
    pub props_or_type_changed: bool,
    /// The lanes of its current fiber.
    pub current_lanes: Lane,
    /// The lanes of its subtree.
    pub child_lanes: Lane,
    pub tag: WorkTag,
}

/// How the work on a fiber begins in `render_lane`: a fiber rendered
/// before, with the same props and type, whose current fiber has no update
/// in the render lanes, is not rendered again; its subtree is skipped when
/// it has no work in the render lanes either, else its children are reused.
/// Gives the step, whether the fiber received an update, and whether a
/// context provider must be entered (a provider that bails out still
/// provides its value to its subtree).
pub open spec fn begin_decision(input: BeginWorkInput, render_lane: Lane) -> (BeginStep, bool, bool) {
    let bails = input.has_current && !input.props_or_type_changed && input.current_lanes@ & render_lane@ == 0;
    if bails {
        (
            if input.child_lanes@ & render_lane@ == 0 {
                BeginStep::SkipSubtree
            } else {
                BeginStep::CloneChildren
            },
            false,
            input.tag == WorkTag::ContextProvider,
        )
    } else {
        (BeginStep::Render, input.has_current && input.props_or_type_changed, false)
    }
}

/// How the work on a fiber begins in `render_lane` (see `begin_decision`).
pub fn begin_step(input: BeginWorkInput, render_lane: Lane) -> (r: (BeginStep, bool, bool))
    ensures
        r == begin_decision(input, render_lane),
{
    let mut did_receive_update = false;
    if input.has_current {
        if input.props_or_type_changed {
            did_receive_update = true;
        } else if !include_some_lanes(input.current_lanes, render_lane) {
            let push_provider = input.tag == WorkTag::ContextProvider;
            if !include_some_lanes(input.child_lanes, render_lane) {
                return (BeginStep::SkipSubtree, false, push_provider);
            }
            return (BeginStep::CloneChildren, false, push_provider);
        }
    }
    (BeginStep::Render, did_receive_update, false)
}

/// Whether the subtree of a fiber that bails out has work in `render_lane`:
/// when it has, its children are reused and the work goes on with them
/// (`true`); otherwise the whole subtree is skipped.
pub fn bailout_on_already_finished_work(child_lanes: Lane, render_lane: Lane) -> (r: bool)
    ensures
        r == (child_lanes@ & render_lane@ != 0),
{
    include_some_lanes(child_lanes, render_lane)
}

/// Whether the current fiber has an update in `render_lane`.
fn check_scheduled_update_or_context(current_lanes: Lane, render_lane: Lane) -> (r: bool)
    ensures
        r == (current_lanes@ & render_lane@ != 0),
{
    include_some_lanes(current_lanes, render_lane)
}

/// Whether a host element gets a ref flag: a new one with a ref, or one
/// whose ref is not the one of its current fiber.
pub fn mark_ref(has_current: bool, has_ref: bool, ref_changed: bool) -> (r: bool)
    ensures
        r == ((!has_current && has_ref) || (has_current && ref_changed)),
{
    (!has_current && has_ref) || (has_current && ref_changed)
}

/// Whether a memo component bails out: it was rendered before, its current
/// fiber has no update in `render_lane`, its props compare equal (by its
/// `compare` function or shallowly, as computed by the caller) and its ref is
/// the same. A memo component that does not bail out renders its inner
/// function component.
pub fn update_memo_component(
    has_current: bool,
    current_lanes: Lane,
    props_equal: bool,
    same_ref: bool,
    render_lane: Lane,
) -> (r: bool)
    ensures
        r == (has_current && current_lanes@ & render_lane@ == 0 && props_equal && same_ref),
{
    has_current && !check_scheduled_update_or_context(current_lanes, render_lane) && props_equal && same_ref
}

/// How a context provider goes on after it entered its value.
#[derive(Debug, Clone, Copy, PartialEq, Eq, Structural)]
pub enum ProviderStep {
    /// Value and children are unchanged: bail out.
    Bailout,
    /// The value changed: propagate the change to the readers, then render
    /// the children.
    Propagate,
    /// First render: render the children.
    Render,
}

/// The step of a context provider: `had_props` tells whether it rendered
/// before, `same_value` and `same_children` compare its new props with the
/// old ones.
pub fn update_context_provider(had_props: bool, same_value: bool, same_children: bool) -> (r: ProviderStep)
    ensures
        !had_props ==> r == ProviderStep::Render,
        had_props && same_value && same_children ==> r == ProviderStep::Bailout,
        had_props && !(same_value && same_children) ==> r == ProviderStep::Propagate,
{
    if had_props {
        if same_value && same_children {
            return ProviderStep::Bailout;
        }
        return ProviderStep::Propagate;
    }
    ProviderStep::Render
}

/// Whether a function component that was just rendered bails out: it was
/// rendered before and received no update.
pub fn update_function_component(has_current: bool, did_receive_update: bool) -> (r: bool)
    ensures
        r == (has_current && !did_receive_update),
{
    has_current && !did_receive_update
}

/// The lanes of the current fiber of a function component that bailed out
/// after rendering its hooks: the render lane is done. Returns them, and the
/// fiber's flags with the passive effect flag cleared.
pub fn bailout_hook(current_lanes: Lane, flags: crate::flags::Flags, render_lane: Lane) -> (r: (Lane, crate::flags::Flags))
    ensures
        r.0@ == current_lanes@ & !render_lane@,
        r.1@ == flags@ & !0x8u16,
{
    (crate::lanes::remove_lanes(current_lanes, render_lane), flags.difference(&crate::flags::Flags::passive_effect()))
}

/// How the host root goes on once its new children are known.
pub enum HostRootNext {
    /// The children are the ones rendered before and nothing below has work
    /// in the render lane: skip the subtree.
    SkipSubtree,
    /// The children are the ones rendered before but work is left below:
    /// reuse the current children (`clone_child_fibers`).
    CloneChildren,
    /// The children changed: the root's children follow this plan.
    Reconcile(ChildrenPlan),
}

/// Renders the host root in `render_lane`: its pending updates (elements
/// to render, given by handle) are taken off its queue and processed on top
/// of its state `base_state`; the root takes the new state, and so does its
/// current fiber (`current_state`, `None` without one) when it has none yet.
/// When the new children are the ones rendered before, the root bails out
/// (its subtree is skipped unless `child_lanes` has work in the render lane);
/// otherwise its children are reconciled, from the old children
/// `current_children` (effects tracked when it has a current fiber), with
/// what the new children are (`shape` tells it from their handle). Returns
/// the new children and how the root goes on.
pub fn update_host_root<F: Fn(u64, Option<u64>) -> u64, G: Fn(u64) -> NewChildren>(
    base_state: Option<u64>,
    queue: &mut UpdateQueue,
    current_state: &mut Option<Option<u64>>,
    render_lane: Lane,
    call: &F,
    child_lanes: Lane,
    current_children: &Vec<OldChild>,
    has_current: bool,
    shape: &G,
) -> (r: (u64, HostRootNext))
    requires
        forall|f: u64, s: Option<u64>| call.requires((f, s)),
        forall|h: u64| shape.requires((h,)),
        forall|h: u64, n: NewChildren| shape.ensures((h,), n) ==> reconcilable(n),
        forall|i: int|
            0 <= i < old(queue).shared.pending@.len() ==> (#[trigger] old(queue).shared.pending@[i]).action is Some
                && (old(queue).shared.pending@[i].has_eager_state ==> old(queue).shared.pending@[i].eager_state is Some),
        last_applied(old(queue).shared.pending@, render_lane) >= 0 || base_state is Some,
    ensures
        final(queue).shared.pending@ == Seq::<Update>::empty(),
        final(queue).dispatch == old(queue).dispatch,
        final(queue).last_rendered_state == old(queue).last_rendered_state,
        *final(current_state) == (match *old(current_state) {
            Some(None) => Some(Some(r.0)),
            other => other,
        }),
        (exists|children: u64, base: Option<u64>, kept: Seq<Update>, skipped: u32|
            children == r.0 && processed(old(queue).shared.pending@, base_state, render_lane, call, Some(children), base, kept, skipped)),
        base_state == Some(r.0) ==> (if child_lanes@ & render_lane@ == 0 {
            r.1 is SkipSubtree
        } else {
            r.1 is CloneChildren
        }),
        base_state != Some(r.0) ==> (r.1 matches HostRootNext::Reconcile(plan) && exists|children: u64, n: NewChildren|
            children == r.0 && shape.ensures((children,), n) && reconciled(
                current_children@,
                n,
                has_current,
                plan.children@,
                plan.deletions@,
            )),
{
    let mut pending: Vec<Update> = Vec::new();
    std::mem::swap(&mut pending, &mut queue.shared.pending);
    proof {
        first_skip_bounds_for(pending@, render_lane);
    }
    let res = process_update_queue(base_state, &pending, render_lane, call);
    let memo = res.memoized_state;
    match *current_state {
        Some(None) => {
            *current_state = Some(memo);
        },
        _ => {},
    }
    let next_children = match memo {
        Some(c) => c,
        None => {
            proof {
                let p = pending@;
                let l = last_applied(p, render_lane);
                assert(p == old(queue).shared.pending@);
                crate::update_queue::lemma_last_applied_bounds(p, render_lane);
                if l >= 0 {
                    assert(p[l].action is Some);
                    assert(p[l].has_eager_state ==> p[l].eager_state is Some);
                    let called = choose|c: u64| memo == crate::update_queue::applied_state(p[l], base_state, c);
                    assert(memo == crate::update_queue::applied_state(p[l], base_state, called));
                }
                assert(false);
            }
            0
        },
    };
    let bailout = match base_state {
        Some(prev) => prev == next_children,
        None => false,
    };
    assert(pending@ == old(queue).shared.pending@);
    assert(processed(old(queue).shared.pending@, base_state, render_lane, call, Some(next_children), res.base_state, res.base_queue@, res.skipped_lanes@));
    if bailout {
        if bailout_on_already_finished_work(child_lanes, render_lane) {
            return (next_children, HostRootNext::CloneChildren);
        }
        return (next_children, HostRootNext::SkipSubtree);
    }
    let n = shape(next_children);
    let plan = reconcile_child_fibers(current_children, &n, has_current);
    (next_children, HostRootNext::Reconcile(plan))
}

/// The first skip of a sequence lies within it.
proof fn first_skip_bounds_for(p: Seq<Update>, render_lane: Lane)
    ensures
        0 <= first_skip(p, render_lane) <= p.len(),
{
    crate::update_queue::first_skip_bounds(p, render_lane);
}

/// The number of fibers of `cs` that have no alternate yet.
pub open spec fn fresh_count(cs: Seq<FiberTree>) -> nat
    decreases cs.len(),
{
    if cs.len() == 0 {
        0
    } else {
        fresh_count(cs.drop_last()) + if cs.last().alternate is None { 1nat } else { 0nat }
    }
}

/// `a` and `b` are the same fiber tree, node for node.
pub open spec fn same_tree(a: FiberTree, b: FiberTree) -> bool
    decreases a, 1int,
{
    &&& a.id == b.id
    &&& a.tag == b.tag
    &&& a.type_handle == b.type_handle
    &&& a.state_node == b.state_node
    &&& a.pending_props == b.pending_props
    &&& a.memoized_props == b.memoized_props
    &&& a.flags == b.flags
    &&& a.subtree_flags == b.subtree_flags
    &&& a.lanes == b.lanes
    &&& a.child_lanes == b.child_lanes
    &&& a.alternate == b.alternate
    &&& same_forest(a.children@, b.children@)
}

/// `a` and `b` are the same fiber trees, one for one.
pub open spec fn same_forest(a: Seq<FiberTree>, b: Seq<FiberTree>) -> bool
    decreases a, 0int,
{
    &&& a.len() == b.len()
    &&& a.len() > 0 ==> same_forest(a.drop_last(), b.drop_last()) && same_tree(a.last(), b.last())
}

/// A copy of the fiber tree `t`.
fn copy_tree(t: &FiberTree) -> (r: FiberTree)
    ensures
        same_tree(r, *t),
    decreases *t, 1int,
{
    FiberTree {
        id: t.id,
        tag: t.tag,
        type_handle: t.type_handle,
        state_node: t.state_node,
        pending_props: t.pending_props,
        memoized_props: t.memoized_props,
        flags: t.flags,
        subtree_flags: t.subtree_flags,
        lanes: t.lanes,
        child_lanes: t.child_lanes,
        alternate: t.alternate,
        children: copy_forest(&t.children),
    }
}

/// A copy of the fiber trees `ts`.
fn copy_forest(ts: &Vec<FiberTree>) -> (r: Vec<FiberTree>)
    ensures
        same_forest(r@, ts@),
    decreases ts@, 0int,
{
    let mut r: Vec<FiberTree> = Vec::new();
    let mut i: usize = 0;
    while i < ts.len()
        invariant
            i <= ts@.len(),
            same_forest(r@, ts@.take(i as int)),
        decreases ts@.len() - i,
    {
        let c = copy_tree(&ts[i]);
        let ghost before = r@;
        r.push(c);
        proof {
            assert(r@.drop_last() =~= before);
            assert(ts@.take(i + 1).drop_last() =~= ts@.take(i as int));
        }
        i = i + 1;
    }
    assert(ts@.take(i as int) =~= ts@);
    r
}

/// `n` is the work-in-progress fiber made from the current fiber `c` for the
/// props `pending`: its alternate (reused, with its id) or a new fiber with
/// id `fresh`; it takes `c`'s kind, type, host node, last props, flags,
/// lanes and children (the current child fibers), has no subtree flags, and
/// pairs with `c`.
pub open spec fn clone_of(c: FiberTree, n: FiberTree, fresh: int, pending: u64) -> bool {
    &&& n.id as int == (match c.alternate {
        Some(a) => a as int,
        None => fresh,
    })
    &&& n.tag == c.tag
    &&& n.type_handle == c.type_handle
    &&& n.state_node == c.state_node
    &&& n.pending_props == pending
    &&& n.memoized_props == c.memoized_props
    &&& n.flags == c.flags
    &&& n.subtree_flags@ == 0
    &&& n.lanes == c.lanes
    &&& n.child_lanes == c.child_lanes
    &&& n.alternate == Some(c.id)
    &&& same_forest(n.children@, c.children@)
}

/// The current fiber `c` once its work-in-progress fiber `n` exists: paired
/// with `n`, and otherwise unchanged.
pub open spec fn linked(c: FiberTree, old_c: FiberTree, n: FiberTree) -> bool {
    c == (FiberTree { alternate: Some(n.id), ..old_c })
}

/// The work-in-progress fiber of the current fiber `current` for the props
/// `pending_props`: its alternate when it has one, else a new fiber with id
/// `next_id`, which then moves on. The current fiber is paired with it.
pub fn create_work_in_progress(current: &mut FiberTree, pending_props: u64, next_id: &mut u32) -> (r: FiberTree)
    requires
        old(current).alternate is None ==> *old(next_id) < u32::MAX,
    ensures
        clone_of(*old(current), r, *old(next_id) as int, pending_props),
        linked(*final(current), *old(current), r),
        *final(next_id) == (if old(current).alternate is None { (*old(next_id) + 1) as u32 } else { *old(next_id) }),
{
    let id = match current.alternate {
        Some(a) => a,
        None => {
            let fresh = *next_id;
            *next_id = fresh + 1;
            fresh
        },
    };
    let r = FiberTree {
        id,
        tag: current.tag,
        type_handle: current.type_handle,
        state_node: current.state_node,
        pending_props,
        memoized_props: current.memoized_props,
        flags: current.flags,
        subtree_flags: Flags::no_flags(),
        lanes: current.lanes,
        child_lanes: current.child_lanes,
        alternate: Some(current.id),
        children: copy_forest(&current.children),
    };
    current.alternate = Some(id);
    r
}

/// The children of a fiber that bailed out: a work-in-progress fiber for each
/// child of its current fiber, in order, which is paired with it; the new
/// ones get ids from `next_id` on.
pub fn clone_child_fibers(current_children: &mut Vec<FiberTree>, next_id: &mut u32) -> (r: Vec<FiberTree>)
    requires
        *old(next_id) + old(current_children)@.len() <= u32::MAX,
    ensures
        r@.len() == old(current_children)@.len(),
        final(current_children)@.len() == old(current_children)@.len(),
        forall|i: int|
            0 <= i < r@.len() ==> clone_of(
                old(current_children)@[i],
                #[trigger] r@[i],
                *old(next_id) + fresh_count(old(current_children)@.take(i)),
                old(current_children)@[i].pending_props,
            ) && linked(final(current_children)@[i], old(current_children)@[i], r@[i]),
        *final(next_id) == *old(next_id) + fresh_count(old(current_children)@),
{
    let ghost cur = current_children@;
    let mut r: Vec<FiberTree> = Vec::new();
    let mut i: usize = 0;
    while i < current_children.len()
        invariant
            i <= cur.len(),
            current_children@.len() == cur.len(),
            *old(next_id) + cur.len() <= u32::MAX,
            r@.len() == i,
            *next_id == *old(next_id) + fresh_count(cur.take(i as int)),
            fresh_count(cur.take(i as int)) <= i,
            forall|k: int| i <= k < cur.len() ==> #[trigger] current_children@[k] == cur[k],
            forall|k: int|
                0 <= k < i ==> clone_of(
                    cur[k],
                    #[trigger] r@[k],
                    *old(next_id) + fresh_count(cur.take(k)),
                    cur[k].pending_props,
                ) && linked(current_children@[k], cur[k], r@[k]),
        decreases cur.len() - i,
    {
        proof {
            assert(cur.take(i + 1).drop_last() =~= cur.take(i as int));
        }
        let mut c = current_children.remove(i);
        let pending = c.pending_props;
        let n = create_work_in_progress(&mut c, pending, next_id);
        current_children.insert(i, c);
        r.push(n);
        i = i + 1;
    }
    assert(cur.take(i as int) =~= cur);
    r
}

/// Begins the work on the fiber `wip` in `render_lane`, as `input`
/// describes it (see `begin_decision`); `current_children` are the children
/// of its current fiber. A fiber that bails out with work below reuses them:
/// its children become their work-in-progress fibers; a skipped subtree is
/// left as it is; a fiber to render has its lanes cleared first.
pub fn begin_work(
    wip: &mut FiberTree,
    current_children: &mut Vec<FiberTree>,
    input: BeginWorkInput,
    render_lane: Lane,
    next_id: &mut u32,
) -> (r: (BeginStep, bool, bool))
    requires
        input.child_lanes == old(wip).child_lanes,
        *old(next_id) + old(current_children)@.len() <= u32::MAX,
    ensures
        r == begin_decision(input, render_lane),
        r.0 != BeginStep::CloneChildren ==> final(current_children)@ == old(current_children)@,
        r.0 == BeginStep::SkipSubtree ==> *final(wip) == *old(wip) && *final(next_id) == *old(next_id),
        r.0 != BeginStep::SkipSubtree ==> {
            &&& final(wip).id == old(wip).id
            &&& final(wip).tag == old(wip).tag
            &&& final(wip).type_handle == old(wip).type_handle
            &&& final(wip).state_node == old(wip).state_node
            &&& final(wip).flags == old(wip).flags
            &&& final(wip).subtree_flags == old(wip).subtree_flags
            &&& final(wip).child_lanes == old(wip).child_lanes
            &&& final(wip).alternate == old(wip).alternate
        },
        r.0 == BeginStep::CloneChildren ==> {
            &&& final(wip).lanes == old(wip).lanes
            &&& final(wip).children@.len() == old(current_children)@.len()
            &&& final(current_children)@.len() == old(current_children)@.len()
            &&& forall|i: int|
                0 <= i < old(current_children)@.len() ==> clone_of(
                    old(current_children)@[i],
                    #[trigger] final(wip).children@[i],
                    *old(next_id) + fresh_count(old(current_children)@.take(i)),
                    old(current_children)@[i].pending_props,
                ) && linked(final(current_children)@[i], old(current_children)@[i], final(wip).children@[i])
            &&& *final(next_id) == *old(next_id) + fresh_count(old(current_children)@)
        },
        r.0 == BeginStep::Render ==> final(wip).lanes@ == 0 && final(wip).children@ == old(wip).children@
            && *final(next_id) == *old(next_id),
{
    let r = begin_step(input, render_lane);
    match r.0 {
        BeginStep::SkipSubtree => {},
        BeginStep::CloneChildren => {
            wip.children = clone_child_fibers(current_children, next_id);
        },
        BeginStep::Render => {
            wip.lanes = Lane::no_lane();
        },
    }
    r
}

/// A fiber renders when it was never rendered, when its props or type
/// changed, or when it has work of its own in the render lane; it received
/// an update exactly when it was rendered before and its props or type
/// changed. Otherwise it bails out: its subtree is skipped when nothing below
/// has work in the render lane, and its children are reused when something
/// does; a context provider that bails out is still entered.
pub proof fn lemma_begin_decides(input: BeginWorkInput, render_lane: Lane)
    ensures
        (begin_decision(input, render_lane).0 == BeginStep::Render) == (!input.has_current
            || input.props_or_type_changed || input.current_lanes@ & render_lane@ != 0),
        begin_decision(input, render_lane).1 == (input.has_current && input.props_or_type_changed),
        begin_decision(input, render_lane).0 == BeginStep::SkipSubtree ==> input.child_lanes@ & render_lane@ == 0,
        begin_decision(input, render_lane).0 == BeginStep::CloneChildren ==> input.child_lanes@ & render_lane@ != 0,
        begin_decision(input, render_lane).2 == (begin_decision(input, render_lane).0 != BeginStep::Render
            && input.tag == WorkTag::ContextProvider),
{
}

} // verus!
