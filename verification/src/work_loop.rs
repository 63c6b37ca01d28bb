use vstd::prelude::*;
use crate::lanes::Lane;
use crate::lanes::ALL_LANE_BITS;
use crate::lanes::neg_u32;
use crate::lanes::lanes_priority;
use crate::lanes::get_highest_priority;
use crate::lanes::lanes_to_scheduler_priority;
use crate::lanes::merge_lanes;
use crate::lanes::lemma_lane_view_injective;
use crate::scheduler::Priority;
use crate::work_tags::WorkTag;
use crate::complete_work::FiberTree;
use crate::begin_work::BeginWorkInput;
use crate::begin_work::BeginStep;
use crate::begin_work::begin_decision;
use crate::begin_work::begin_step;
use crate::flags::Flags;
use crate::flags::get_passive_mask;
use crate::flags::get_mutation_mask;

verus! {

/// The highest-priority lane of a lane set, as a bit mask.
pub open spec fn highest_lane(lanes: u32) -> u32 {
    (lanes & neg_u32(lanes)) & ALL_LANE_BITS
}

/// What the host must do so that a root's pending work gets rendered.
#[derive(Debug, Clone, Copy, PartialEq, Eq, Structural)]
pub enum RootSchedule {
    /// The callback that is scheduled already serves the work: nothing to do.
    Keep,
    /// No work is left: cancel the scheduled callback (`cancel`, a task id)
    /// if there is one, and forget it.
    Clear { cancel: Option<u32> },
    /// Cancel `cancel` if given, then render `lanes` synchronously in a
    /// microtask; the root has no scheduler callback from now on.
    ScheduleSync { cancel: Option<u32>, lanes: Lane },
    /// Cancel `cancel` if given, then schedule a concurrent render with the
    /// scheduler at `priority`; the new task becomes the root's callback.
    ScheduleConcurrent { cancel: Option<u32>, priority: Priority },
}

/// Decides how a root with pending work `update_lanes`, scheduled callback
/// `existing_callback` and callback priority `callback_priority` gets
/// rendered. Returns what to do and the root's new callback priority: the
/// highest-priority lane of the work (no lane when there is no work).
pub fn ensure_root_is_scheduled(
    update_lanes: Lane,
    existing_callback: Option<u32>,
    callback_priority: Lane,
) -> (r: (RootSchedule, Lane))
    ensures
        update_lanes@ == 0 ==> r.0 == (RootSchedule::Clear { cancel: existing_callback }) && r.1@ == 0,
        update_lanes@ != 0 ==> {
            let cur = highest_lane(update_lanes@);
            &&& cur == callback_priority@ ==> r.0 == RootSchedule::Keep && r.1 == callback_priority
            &&& cur != callback_priority@ ==> r.1@ == cur && (if cur == 1 {
                r.0 == (RootSchedule::ScheduleSync { cancel: existing_callback, lanes: update_lanes })
            } else {
                r.0 == (RootSchedule::ScheduleConcurrent {
                    cancel: existing_callback,
                    priority: lanes_priority(cur),
                })
            })
        },
{
    broadcast use lemma_lane_view_injective;

    if update_lanes == Lane::no_lane() {
        return (RootSchedule::Clear { cancel: existing_callback }, Lane::no_lane());
    }
    let cur_priority = get_highest_priority(update_lanes);
    if cur_priority == callback_priority {
        return (RootSchedule::Keep, callback_priority);
    }
    if cur_priority == Lane::sync_lane() {
        return (RootSchedule::ScheduleSync { cancel: existing_callback, lanes: update_lanes }, cur_priority);
    }
    let priority = lanes_to_scheduler_priority(cur_priority);
    (RootSchedule::ScheduleConcurrent { cancel: existing_callback, priority }, cur_priority)
}

/// The child lanes of a fiber on the path from an updated fiber up to the
/// root, and those of its alternate when it has one.
#[derive(Debug, Clone, Copy, PartialEq, Eq, Structural)]
pub struct PathNode {
    pub child_lanes: Lane,
    pub alternate_child_lanes: Option<Lane>,
}

/// Marks `lane` in the child lanes of every ancestor of an updated fiber
/// (`ancestors`, from its parent up) and of their alternates. The topmost
/// fiber of the path (the last ancestor, or the fiber itself when it has
/// none) has kind `top_tag` and, when it is a host root with a root node,
/// that node `top_root`. Returns the root node when the path ends at a host
/// root, else `None`.
pub fn mark_update_lane_from_fiber_to_root(
    ancestors: &mut Vec<PathNode>,
    top_tag: WorkTag,
    top_root: Option<u32>,
    lane: Lane,
) -> (r: Option<u32>)
    ensures
        final(ancestors)@.len() == old(ancestors)@.len(),
        forall|i: int|
            0 <= i < old(ancestors)@.len() ==> {
                let o = #[trigger] old(ancestors)@[i];
                let n = final(ancestors)@[i];
                &&& n.child_lanes@ == o.child_lanes@ | lane@
                &&& n.alternate_child_lanes is Some == o.alternate_child_lanes is Some
                &&& o.alternate_child_lanes matches Some(a) ==> n.alternate_child_lanes.unwrap()@ == a@
                    | lane@
            },
        r == (if top_tag == WorkTag::HostRoot { top_root } else { None }),
{
    let mut i: usize = 0;
    while i < ancestors.len()
        invariant
            i <= ancestors@.len(),
            ancestors@.len() == old(ancestors)@.len(),
            forall|k: int|
                i <= k < old(ancestors)@.len() ==> #[trigger] ancestors@[k] == old(ancestors)@[k],
            forall|k: int|
                0 <= k < i ==> {
                    let o = #[trigger] old(ancestors)@[k];
                    let n = ancestors@[k];
                    &&& n.child_lanes@ == o.child_lanes@ | lane@
                    &&& n.alternate_child_lanes is Some == o.alternate_child_lanes is Some
                    &&& o.alternate_child_lanes matches Some(a) ==> n.alternate_child_lanes.unwrap()@
                        == a@ | lane@
                },
        decreases ancestors@.len() - i,
    {
        let p = ancestors[i];
        let alternate = match p.alternate_child_lanes {
            Some(a) => Some(merge_lanes(a, lane)),
            None => None,
        };
        ancestors.set(i, PathNode { child_lanes: merge_lanes(p.child_lanes, lane), alternate_child_lanes: alternate });
        i = i + 1;
    }
    if top_tag == WorkTag::HostRoot {
        return top_root;
    }
    None
}

/// How a render of a root ended.
#[derive(Debug, Clone, Copy, PartialEq, Eq, Structural)]
pub enum RootExitStatus {
    InProgress,
    Incomplete,
    Completed,
    DidNotComplete,
}

/// The status a render ends with: a time-sliced render that stopped with
/// work left is incomplete; any other render is completed.
pub fn render_root_exit_status(should_time_slice: bool, has_work_left: bool) -> (r: RootExitStatus)
    ensures
        r == (if should_time_slice && has_work_left {
            RootExitStatus::Incomplete
        } else {
            RootExitStatus::Completed
        }),
{
    if should_time_slice && has_work_left {
        return RootExitStatus::Incomplete;
    }
    RootExitStatus::Completed
}

/// What a concurrent render of a root leads to.
#[derive(Debug, Clone, Copy, PartialEq, Eq, Structural)]
pub enum ConcurrentOutcome {
    /// Nothing to render, or the render was superseded: the task ends.
    Done,
    /// The render stopped with work left: the task continues later.
    Continue,
    /// The render completed: commit the root in `lanes`.
    Commit,
}

/// What follows a concurrent render of `lanes` that ended with
/// `exit_status`, where `same_callback` tells whether the root's callback is
/// still the task that ran (no higher-priority work replaced it).
pub fn concurrent_work_outcome(lanes: Lane, exit_status: RootExitStatus, same_callback: bool) -> (r: ConcurrentOutcome)
    requires
        lanes@ != 0 ==> exit_status == RootExitStatus::Incomplete || exit_status
            == RootExitStatus::Completed,
    ensures
        lanes@ == 0 ==> r == ConcurrentOutcome::Done,
        lanes@ != 0 && exit_status == RootExitStatus::Incomplete ==> r == (if same_callback {
            ConcurrentOutcome::Continue
        } else {
            ConcurrentOutcome::Done
        }),
        lanes@ != 0 && exit_status == RootExitStatus::Completed ==> r == ConcurrentOutcome::Commit,
{
    broadcast use lemma_lane_view_injective;

    if lanes == Lane::no_lane() {
        return ConcurrentOutcome::Done;
    }
    match exit_status {
        RootExitStatus::Incomplete => {
            if same_callback {
                ConcurrentOutcome::Continue
            } else {
                ConcurrentOutcome::Done
            }
        },
        _ => ConcurrentOutcome::Commit,
    }
}

/// What committing a finished tree does besides switching the root to it.
#[derive(Debug, Clone, Copy, PartialEq, Eq, Structural)]
pub struct CommitPlan {
    /// Schedule a flush of the passive effects at normal priority.
    pub schedule_passive_flush: bool,
    /// Run the mutation and layout phases.
    pub run_mutation_and_layout: bool,
}

/// Plans the commit of a finished tree whose root has flags `flags` and
/// subtree flags `subtree_flags`; `passive_flush_scheduled` tells whether a
/// flush of passive effects is scheduled already. Passive effects in the
/// tree get a flush scheduled once. The mutation and layout phases run when
/// the root's flags or its subtree's flags are all mutation flags (which
/// holds of no flag at all too).
pub fn commit_root(flags: Flags, subtree_flags: Flags, passive_flush_scheduled: bool) -> (r: CommitPlan)
    ensures
        r.schedule_passive_flush == (!passive_flush_scheduled && (flags@ & 0xC != 0 || subtree_flags@
            & 0xC != 0)),
        r.run_mutation_and_layout == (0x7 & subtree_flags@ == subtree_flags@ || 0x7 & flags@ == flags@),
{
    let passive_mask = get_passive_mask();
    let has_passive = flags.intersects(&passive_mask) || subtree_flags.intersects(&passive_mask);
    let mutation_mask = get_mutation_mask();
    let subtree_has_effect = mutation_mask.contains(&subtree_flags);
    let root_has_effect = mutation_mask.contains(&flags);
    CommitPlan {
        schedule_passive_flush: has_passive && !passive_flush_scheduled,
        run_mutation_and_layout: subtree_has_effect || root_has_effect,
    }
}

/// Whether flushing the pending passive effects runs any: the effects of
/// unmounted components are destroyed, then those of updated components are
/// unmounted and mounted again.
pub fn flush_passive_effects(unmount_count: usize, update_count: usize) -> (r: bool)
    ensures
        r == (unmount_count > 0 || update_count > 0),
{
    unmount_count > 0 || update_count > 0
}

/// A step of the work loop on a fiber: beginning its work, or completing it.
#[derive(Debug, Clone, Copy, PartialEq, Eq, Structural)]
pub enum WorkEvent {
    Begin(u32),
    Complete(u32),
}

/// What the beginning of the work on `t` looks at: whether it was rendered
/// before, whether its pending props differ from those it was rendered with
/// (its type is that of its alternate), its lanes and its subtree's.
pub open spec fn begin_input(t: FiberTree) -> BeginWorkInput {
    BeginWorkInput {
        has_current: t.alternate is Some,
        props_or_type_changed: t.pending_props != t.memoized_props,
        current_lanes: t.lanes,
        child_lanes: t.child_lanes,
        tag: t.tag,
    }
}

/// The steps of the work loop on the tree `t` in `render_lane`: a fiber is
/// begun, then, unless it bails out with no work in its subtree, its
/// children are worked on in order, then it is completed.
pub open spec fn render_order(t: FiberTree, render_lane: Lane) -> Seq<WorkEvent>
    decreases t, 1int,
{
    seq![WorkEvent::Begin(t.id)] + (if begin_decision(begin_input(t), render_lane).0 == BeginStep::SkipSubtree {
        Seq::empty()
    } else {
        render_order_forest(t.children@, render_lane)
    }) + seq![WorkEvent::Complete(t.id)]
}

/// The steps of the work loop on the trees `ts`, one after the other.
pub open spec fn render_order_forest(ts: Seq<FiberTree>, render_lane: Lane) -> Seq<WorkEvent>
    decreases ts, 0int,
{
    if ts.len() == 0 {
        Seq::empty()
    } else {
        render_order_forest(ts.drop_last(), render_lane) + render_order(ts.last(), render_lane)
    }
}

/// Whether the work on `t` skips its subtree.
fn skips_subtree(t: &FiberTree, render_lane: Lane) -> (r: bool)
    ensures
        r == (begin_decision(begin_input(*t), render_lane).0 == BeginStep::SkipSubtree),
{
    let input = BeginWorkInput {
        has_current: t.alternate.is_some(),
        props_or_type_changed: t.pending_props != t.memoized_props,
        current_lanes: t.lanes,
        child_lanes: t.child_lanes,
        tag: t.tag,
    };
    let step = begin_step(input, render_lane);
    match step.0 {
        BeginStep::SkipSubtree => true,
        _ => false,
    }
}

/// Appends to `out` the steps of the work loop on the trees `ts`.
fn render_forest(ts: &Vec<FiberTree>, render_lane: Lane, out: &mut Vec<WorkEvent>)
    ensures
        final(out)@ == old(out)@ + render_order_forest(ts@, render_lane),
    decreases ts@, 0int,
{
    let mut i: usize = 0;
    while i < ts.len()
        invariant
            i <= ts@.len(),
            out@ == old(out)@ + render_order_forest(ts@.take(i as int), render_lane),
        decreases ts@.len() - i,
    {
        let t = &ts[i];
        let ghost before = out@;
        proof {
            assert(ts@.take(i + 1).drop_last() =~= ts@.take(i as int));
            assert(ts@.take(i + 1).last() == *t);
            assert(render_order_forest(ts@.take(i + 1), render_lane) == render_order_forest(ts@.take(i as int), render_lane)
                + render_order(*t, render_lane));
        }
        out.push(WorkEvent::Begin(t.id));
        if !skips_subtree(t, render_lane) {
            render_forest(&t.children, render_lane, out);
        }
        out.push(WorkEvent::Complete(t.id));
        assert(out@ =~= before + render_order(*t, render_lane));
        i = i + 1;
        assert(out@ =~= old(out)@ + render_order_forest(ts@.take(i as int), render_lane));
    }
    assert(ts@.take(i as int) =~= ts@);
}

/// The order in which the work loop begins and completes the fibers of the
/// tree that rendering from `root` in `render_lane` produces: each fiber is
/// begun before its children and completed after them, and after it the work
/// goes on with its next sibling, or completes its parent; a fiber that bails
/// out with no work below is completed at once, its subtree left untouched.
pub fn work_loop_sync(root: &FiberTree, render_lane: Lane) -> (r: Vec<WorkEvent>)
    ensures
        r@ == render_order(*root, render_lane),
{
    let mut out: Vec<WorkEvent> = Vec::new();
    out.push(WorkEvent::Begin(root.id));
    if !skips_subtree(root, render_lane) {
        render_forest(&root.children, render_lane, &mut out);
    }
    out.push(WorkEvent::Complete(root.id));
    assert(out@ =~= render_order(*root, render_lane));
    out
}

/// Whether a synchronous render of a root goes ahead: only when its next
/// lanes are the sync lane; otherwise the root is scheduled again.
pub fn perform_sync_work_on_root(next_lanes: Lane) -> (r: bool)
    ensures
        r == (next_lanes@ == 1),
{
    broadcast use lemma_lane_view_injective;

    next_lanes == Lane::sync_lane()
}

/// What follows a synchronous render that ended with `exit_status`: a
/// completed render is committed (`true`); a render that did not complete
/// marks the root suspended in its lanes and schedules it again (`false`).
pub fn sync_work_outcome(exit_status: RootExitStatus) -> (r: bool)
    requires
        exit_status == RootExitStatus::Completed || exit_status == RootExitStatus::DidNotComplete,
    ensures
        r == (exit_status == RootExitStatus::Completed),
{
    exit_status == RootExitStatus::Completed
}

/// The work loop goes into the children of a fiber that has to render (one
/// never rendered before, one whose pending props are not the props it
/// rendered with, or one with work of its own in the render lane) or that
/// has work below it in the render lane. It begins the fiber, works on its
/// children in order, then completes it.
pub proof fn lemma_changed_fiber_is_not_skipped(t: FiberTree, render_lane: Lane)
    requires
        t.alternate is None || t.pending_props != t.memoized_props || t.lanes@ & render_lane@ != 0
            || t.child_lanes@ & render_lane@ != 0,
    ensures
        render_order(t, render_lane) == seq![WorkEvent::Begin(t.id)] + render_order_forest(t.children@, render_lane)
            + seq![WorkEvent::Complete(t.id)],
{
}

/// The work loop leaves out the subtree of a fiber rendered before with the
/// same props, no work of its own and none below in the render lane: it
/// begins and completes that fiber alone.
pub proof fn lemma_unchanged_idle_fiber_is_skipped(t: FiberTree, render_lane: Lane)
    requires
        t.alternate is Some,
        t.pending_props == t.memoized_props,
        t.lanes@ & render_lane@ == 0,
        t.child_lanes@ & render_lane@ == 0,
    ensures
        render_order(t, render_lane) == seq![WorkEvent::Begin(t.id), WorkEvent::Complete(t.id)],
{
    assert(seq![WorkEvent::Begin(t.id)] + Seq::<WorkEvent>::empty() + seq![WorkEvent::Complete(t.id)]
        =~= seq![WorkEvent::Begin(t.id), WorkEvent::Complete(t.id)]);
}

} // verus!
