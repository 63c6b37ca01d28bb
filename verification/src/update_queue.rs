use vstd::prelude::*;
use crate::lanes::Lane;
use crate::lanes::merge_lanes;
use crate::lanes::is_subset_of_lanes;
use crate::lanes::lemma_lane_view_injective;

verus! {

/// What an update does to the state: set it to a value, or call a function
/// on the state (each given as the handle of a JavaScript value).
#[derive(Debug, Clone, Copy, PartialEq, Eq, Structural)]
pub enum Action {
    Value(u64),
    Function(u64),
}

/// The action of a state update, as a marker type.
#[derive(Debug, Clone, Copy)]
pub struct UpdateAction;

/// A state update, with the lane it was made in and, when it was computed
/// at dispatch time, its eager state.
#[derive(Debug, Clone, Copy, PartialEq, Eq, Structural)]
pub struct Update {
    pub action: Option<Action>,
    pub lane: Lane,
    pub has_eager_state: bool,
    pub eager_state: Option<u64>,
}

/// The pending updates of a queue, oldest first.
pub struct UpdateType {
    pub pending: Vec<Update>,
}

/// The update queue of a fiber or a state hook.
pub struct UpdateQueue {
    pub shared: UpdateType,
    pub dispatch: Option<u64>,
    pub last_rendered_state: Option<u64>,
}

/// The lanes of a fiber and of its alternate, if it has one.
#[derive(Debug, Clone, Copy, PartialEq, Eq, Structural)]
pub struct FiberLanes {
    pub lanes: Lane,
    pub alternate_lanes: Option<Lane>,
}

/// What processing an update queue gives: the new state, the state to start
/// from next time, the updates to process again next time, and the lanes of
/// the updates that were skipped.
pub struct ReturnOfProcessUpdateQueue {
    pub memoized_state: Option<u64>,
    pub base_state: Option<u64>,
    pub base_queue: Vec<Update>,
    pub skipped_lanes: Lane,
    pub skipped_updates: Vec<Update>,
}

/// A new update of `action` in `lane`.
pub fn create_update(action: Action, lane: Lane) -> (r: Update)
    ensures
        r == (Update { action: Some(action), lane, has_eager_state: false, eager_state: None }),
{
    Update { action: Some(action), lane, has_eager_state: false, eager_state: None }
}

/// An empty update queue.
pub fn create_update_queue() -> (r: UpdateQueue)
    ensures
        r.shared.pending@ == Seq::<Update>::empty(),
        r.dispatch is None,
        r.last_rendered_state is None,
{
    UpdateQueue {
        shared: UpdateType { pending: Vec::new() },
        dispatch: None,
        last_rendered_state: None,
    }
}

/// Appends `update` to the pending updates, and marks `lane` on the fiber and
/// on its alternate.
pub fn enqueue_update(update_queue: &mut UpdateQueue, update: Update, fiber: &mut FiberLanes, lane: Lane)
    ensures
        final(update_queue).shared.pending@ == old(update_queue).shared.pending@.push(update),
        final(update_queue).dispatch == old(update_queue).dispatch,
        final(update_queue).last_rendered_state == old(update_queue).last_rendered_state,
        final(fiber).lanes@ == old(fiber).lanes@ | lane@,
        final(fiber).alternate_lanes is Some == old(fiber).alternate_lanes is Some,
        old(fiber).alternate_lanes matches Some(a) ==> final(fiber).alternate_lanes.unwrap()@ == a@ | lane@,
{
    update_queue.shared.pending.push(update);
    fiber.lanes = merge_lanes(fiber.lanes, lane);
    match fiber.alternate_lanes {
        Some(a) => {
            fiber.alternate_lanes = Some(merge_lanes(a, lane));
        },
        None => {},
    }
}

/// What the basic state reducer gives for `action` on `state`, where a
/// function action gave `called` (`None` when it threw).
pub open spec fn reduced(action: Action, called: Option<u64>) -> Option<u64> {
    match action {
        Action::Value(v) => Some(v),
        Action::Function(_) => called,
    }
}

/// The state `action` makes of `state`: its value, or what its function
/// gives on `state` (`None` when the function threw).
pub fn basic_state_reducer<F: Fn(u64, Option<u64>) -> Option<u64>>(state: u64, action: Action, call: &F) -> (r: Option<u64>)
    requires
        forall|f: u64, s: Option<u64>| call.requires((f, s)),
    ensures
        action matches Action::Value(v) ==> r == Some(v),
        action matches Action::Function(g) ==> call.ensures((g, Some(state)), r),
{
    match action {
        Action::Function(g) => call(g, Some(state)),
        Action::Value(v) => Some(v),
    }
}

/// The fiber has no pending work in itself or its alternate, so a state
/// update can be computed at once.
pub open spec fn fiber_idle(fiber: FiberLanes) -> bool {
    fiber.lanes@ == 0 && (fiber.alternate_lanes matches Some(a) ==> a@ == 0)
}

/// Dispatches a state update of `action` in `lane` (the lane the scheduler's
/// current priority asks for). When the fiber is idle, the new state is
/// computed at once from the last rendered state; when it equals that state
/// the update is queued without marking a lane and nothing has to render.
/// Returns whether a render must be scheduled in `lane`.
pub fn dispatch_set_state<F: Fn(u64, Option<u64>) -> Option<u64>>(
    fiber: &mut FiberLanes,
    update_queue: &mut UpdateQueue,
    action: Action,
    lane: Lane,
    call: &F,
) -> (r: bool)
    requires
        forall|f: u64, s: Option<u64>| call.requires((f, s)),
        fiber_idle(*old(fiber)) ==> old(update_queue).last_rendered_state is Some,
    ensures
        final(update_queue).dispatch == old(update_queue).dispatch,
        final(update_queue).last_rendered_state == old(update_queue).last_rendered_state,
        exists|called: Option<u64>| #![trigger reduced(action, called)] {
            let idle = fiber_idle(*old(fiber));
            let state = old(update_queue).last_rendered_state.unwrap();
            let eager = reduced(action, called);
            let update = if idle && eager is Some {
                Update { action: Some(action), lane, has_eager_state: true, eager_state: eager }
            } else {
                Update { action: Some(action), lane, has_eager_state: false, eager_state: None }
            };
            let bail_out = idle && eager == Some(state);
            let marked = if bail_out { 0u32 } else { lane@ };
            &&& (idle && action is Function) ==> call.ensures((action->Function_0, Some(state)), called)
            &&& final(update_queue).shared.pending@ == old(update_queue).shared.pending@.push(update)
            &&& final(fiber).lanes@ == old(fiber).lanes@ | marked
            &&& final(fiber).alternate_lanes is Some == old(fiber).alternate_lanes is Some
            &&& old(fiber).alternate_lanes matches Some(a) ==> final(fiber).alternate_lanes.unwrap()@ == a@ | marked
            &&& r == !bail_out
        },
{
    broadcast use lemma_lane_view_injective;

    let mut update = create_update(action, lane);
    let idle = fiber.lanes == Lane::no_lane() && match fiber.alternate_lanes {
        None => true,
        Some(a) => a == Lane::no_lane(),
    };
    let ghost mut called: Option<u64> = None;
    if idle {
        let current_state = update_queue.last_rendered_state.unwrap();
        let eager_state = basic_state_reducer(current_state, action, call);
        proof {
            if action is Function {
                called = eager_state;
            }
        }
        if eager_state.is_some() {
            update.has_eager_state = true;
            update.eager_state = eager_state;
            if eager_state == Some(current_state) {
                enqueue_update(update_queue, update, fiber, Lane::no_lane());
                assert(reduced(action, called) == eager_state);
                return false;
            }
        }
    }
    enqueue_update(update_queue, update, fiber, lane);
    assert(idle == fiber_idle(*old(fiber)));
    assert(idle ==> reduced(action, called) == update.eager_state || (reduced(action, called) is None && !update.has_eager_state));
    true
}

/// The update does not belong to the lanes being rendered.
pub open spec fn skipped(u: Update, render_lanes: Lane) -> bool {
    render_lanes@ & u.lane@ != u.lane@
}

/// The index of the first skipped update of `p`, or its length when none is.
pub open spec fn first_skip(p: Seq<Update>, render_lanes: Lane) -> int
    decreases p.len(),
{
    if p.len() == 0 {
        0
    } else {
        let f = first_skip(p.drop_last(), render_lanes);
        if f < p.len() - 1 {
            f
        } else if skipped(p.last(), render_lanes) {
            p.len() - 1
        } else {
            p.len() as int
        }
    }
}

/// The index of the last update of `p` that is not skipped, or -1.
pub open spec fn last_applied(p: Seq<Update>, render_lanes: Lane) -> int
    decreases p.len(),
{
    if p.len() == 0 {
        -1
    } else if !skipped(p.last(), render_lanes) {
        p.len() - 1
    } else {
        last_applied(p.drop_last(), render_lanes)
    }
}

/// The union of the lanes of the skipped updates of `p`.
pub open spec fn skipped_bits(p: Seq<Update>, render_lanes: Lane) -> u32
    decreases p.len(),
{
    if p.len() == 0 {
        0
    } else if skipped(p.last(), render_lanes) {
        skipped_bits(p.drop_last(), render_lanes) | p.last().lane@
    } else {
        skipped_bits(p.drop_last(), render_lanes)
    }
}

/// The updates of `p` that are skipped, in order, each as the copy that the
/// skip is reported with.
pub open spec fn skipped_updates(p: Seq<Update>, render_lanes: Lane) -> Seq<Update>
    decreases p.len(),
{
    if p.len() == 0 {
        Seq::empty()
    } else if skipped(p.last(), render_lanes) {
        skipped_updates(p.drop_last(), render_lanes).push(rebased(p.last()))
    } else {
        skipped_updates(p.drop_last(), render_lanes)
    }
}

/// The copy of an update kept for a later render: action and lane only.
pub open spec fn rebased(u: Update) -> Update {
    Update { action: u.action, lane: u.lane, has_eager_state: false, eager_state: None }
}

/// The state that applying update `u` to `base_state` gives, where a function
/// action gave `called`.
pub open spec fn applied_state(u: Update, base_state: Option<u64>, called: u64) -> Option<u64> {
    if u.has_eager_state {
        u.eager_state
    } else {
        match u.action {
            None => None,
            Some(Action::Value(v)) => Some(v),
            Some(Action::Function(_)) => Some(called),
        }
    }
}

/// The base queue that processing `p` leaves: empty when nothing is skipped;
/// otherwise one rebased update, the last applied update after the first skip
/// when there is one, else the first skipped update.
pub open spec fn kept_queue(p: Seq<Update>, render_lanes: Lane) -> Seq<Update> {
    let f = first_skip(p, render_lanes);
    let l = last_applied(p, render_lanes);
    if f >= p.len() {
        Seq::empty()
    } else if l > f {
        seq![rebased(p[l])]
    } else {
        seq![rebased(p[f])]
    }
}

/// What processing the updates `p` on top of `base_state` for `render_lanes`
/// gives: the new state `memo`, the base state `new_base`, the base queue
/// `queue` and the lanes `skipped` of the skipped updates.
pub open spec fn processed<F: Fn(u64, Option<u64>) -> u64>(
    p: Seq<Update>,
    base_state: Option<u64>,
    render_lanes: Lane,
    call: &F,
    memo: Option<u64>,
    new_base: Option<u64>,
    queue: Seq<Update>,
    skipped: u32,
) -> bool {
    let f = first_skip(p, render_lanes);
    let l = last_applied(p, render_lanes);
    &&& l == -1 ==> memo == base_state
    &&& l >= 0 ==> exists|called: u64|
        {
            &&& memo == applied_state(p[l], base_state, called)
            &&& p[l].action matches Some(Action::Function(g)) ==> (!p[l].has_eager_state
                ==> call.ensures((g, base_state), called))
        }
    &&& f < p.len() ==> new_base == base_state
    &&& f == p.len() ==> new_base == memo
    &&& queue == kept_queue(p, render_lanes)
    &&& skipped == skipped_bits(p, render_lanes)
}

/// Processes the pending updates on top of `base_state` for `render_lanes`.
/// An update outside the render lanes is skipped, and the base state stays
/// `base_state`; the base queue then keeps one update stripped of eager
/// state (see `kept_queue`). The new state is that of
/// the last update that is not skipped, applied to `base_state`: its eager
/// state if it has one, else its value, else what `call` gives for its
/// function on `base_state`.
pub fn process_update_queue<F: Fn(u64, Option<u64>) -> u64>(
    base_state: Option<u64>,
    pending_update: &Vec<Update>,
    render_lanes: Lane,
    call: &F,
) -> (r: ReturnOfProcessUpdateQueue)
    requires
        forall|f: u64, s: Option<u64>| call.requires((f, s)),
        forall|i: int|
            first_skip(pending_update@, render_lanes) <= i < pending_update@.len()
                ==> (#[trigger] pending_update@[i]).action is Some,
        forall|i: int|
            0 <= i < pending_update@.len() && !skipped(#[trigger] pending_update@[i], render_lanes)
                && pending_update@[i].has_eager_state ==> pending_update@[i].eager_state is Some,
    ensures
        processed(
            pending_update@,
            base_state,
            render_lanes,
            call,
            r.memoized_state,
            r.base_state,
            r.base_queue@,
            r.skipped_lanes@,
        ),
        r.skipped_updates@ == skipped_updates(pending_update@, render_lanes),
{
    let ghost p = pending_update@;
    let mut new_state = base_state;
    let mut new_base_state = base_state;
    let mut new_base_queue: Vec<Update> = Vec::new();
    let mut skipped_lanes = Lane::no_lane();
    let mut skipped_list: Vec<Update> = Vec::new();
    let mut has_skipped = false;
    let ghost mut called: u64 = 0;
    let mut i: usize = 0;
    proof {
        first_skip_extend(p, 0, render_lanes);
        assert(p.take(0) =~= Seq::<Update>::empty());
    }
    while i < pending_update.len()
        invariant
            p == pending_update@,
            0 <= i <= p.len(),
            forall|f: u64, s: Option<u64>| call.requires((f, s)),
            forall|j: int|
                first_skip(p, render_lanes) <= j < p.len() ==> (#[trigger] p[j]).action is Some,
            forall|j: int|
                0 <= j < p.len() && !skipped(#[trigger] p[j], render_lanes) && p[j].has_eager_state
                    ==> p[j].eager_state is Some,
            has_skipped == (first_skip(p.take(i as int), render_lanes) < i),
            first_skip(p.take(i as int), render_lanes) < i ==> first_skip(p, render_lanes) == first_skip(p.take(i as int), render_lanes),
            first_skip(p.take(i as int), render_lanes) == i ==> first_skip(p, render_lanes) >= i,
            has_skipped ==> new_base_state == base_state,
            new_base_queue@ == kept_queue(p.take(i as int), render_lanes),
            skipped_lanes@ == skipped_bits(p.take(i as int), render_lanes),
            skipped_list@ == skipped_updates(p.take(i as int), render_lanes),
            last_applied(p.take(i as int), render_lanes) == -1 ==> new_state == base_state,
            last_applied(p.take(i as int), render_lanes) >= 0 ==> {
                let u = p[last_applied(p.take(i as int), render_lanes)];
                &&& new_state == applied_state(u, base_state, called)
                &&& u.action matches Some(Action::Function(g)) ==> (!u.has_eager_state ==> call.ensures(
                    (g, base_state),
                    called,
                ))
            },
        decreases p.len() - i,
    {
        let update = pending_update[i];
        let ghost t = p.take(i as int);
        let ghost t1 = p.take(i + 1);
        proof {
            assert(t1.drop_last() =~= t);
            assert(t1.last() == update);
            first_skip_prefix(p, i as int, render_lanes);
        }
        if !is_subset_of_lanes(render_lanes, update.lane) {
            let clone = Update { action: update.action, lane: update.lane, has_eager_state: false, eager_state: None };
            skipped_lanes = merge_lanes(skipped_lanes, update.lane);
            skipped_list.push(clone);
            if !has_skipped {
                has_skipped = true;
                new_base_state = base_state;
                new_base_queue = vec![clone];
            }
        } else {
            if has_skipped {
                let clone = Update { action: update.action, lane: update.lane, has_eager_state: false, eager_state: None };
                new_base_queue = vec![clone];
            }
            if update.has_eager_state {
                new_state = update.eager_state;
            } else {
                new_state = match update.action {
                    None => None,
                    Some(Action::Value(v)) => Some(v),
                    Some(Action::Function(g)) => {
                        let c = call(g, base_state);
                        proof {
                            called = c;
                        }
                        Some(c)
                    },
                };
            }
        }
        proof {
            first_skip_bounds(t, render_lanes);
            lemma_last_applied_bounds(t, render_lanes);
            let fs = first_skip(t, render_lanes);
            let fs1 = first_skip(t1, render_lanes);
            if skipped(update, render_lanes) {
                assert(last_applied(t1, render_lanes) == last_applied(t, render_lanes));
                if fs < i {
                    assert(fs1 == fs);
                    assert(t1[fs] == t[fs]);
                    if last_applied(t, render_lanes) > fs {
                        assert(t1[last_applied(t, render_lanes)] == t[last_applied(t, render_lanes)]);
                    }
                } else {
                    assert(fs1 == i);
                    assert(new_base_queue@ =~= kept_queue(t1, render_lanes));
                }
            } else {
                assert(last_applied(t1, render_lanes) == i);
                if fs < i {
                    assert(fs1 == fs);
                    assert(new_base_queue@ =~= kept_queue(t1, render_lanes));
                } else {
                    assert(fs1 == i + 1);
                }
            }
            assert(new_base_queue@ =~= kept_queue(t1, render_lanes));
            first_skip_extend(p, i + 1, render_lanes);
        }
        i = i + 1;
    }
    proof {
        assert(p.take(p.len() as int) =~= p);
    }
    if !has_skipped {
        new_base_state = new_state;
    }
    ReturnOfProcessUpdateQueue {
        memoized_state: new_state,
        base_state: new_base_state,
        base_queue: new_base_queue,
        skipped_lanes,
        skipped_updates: skipped_list,
    }
}

/// The first skip of a sequence lies within it.
pub(crate) proof fn first_skip_bounds(p: Seq<Update>, render_lanes: Lane)
    ensures
        0 <= first_skip(p, render_lanes) <= p.len(),
    decreases p.len(),
{
    if p.len() > 0 {
        first_skip_bounds(p.drop_last(), render_lanes);
    }
}

/// A skip found in a prefix is the first skip of the whole sequence; a
/// prefix with no skip leaves the first skip at or after its end.
proof fn first_skip_extend(p: Seq<Update>, i: int, render_lanes: Lane)
    requires
        0 <= i <= p.len(),
    ensures
        first_skip(p.take(i), render_lanes) < i ==> first_skip(p, render_lanes) == first_skip(p.take(i), render_lanes),
        first_skip(p.take(i), render_lanes) == i ==> first_skip(p, render_lanes) >= i,
    decreases p.len() - i,
{
    if i == p.len() {
        assert(p.take(i) =~= p);
        first_skip_bounds(p, render_lanes);
    } else {
        first_skip_prefix(p, i, render_lanes);
        first_skip_extend(p, i + 1, render_lanes);
    }
}

/// How the first skip of a prefix relates to that of the whole sequence.
proof fn first_skip_prefix(p: Seq<Update>, i: int, render_lanes: Lane)
    requires
        0 <= i < p.len(),
    ensures
        first_skip(p.take(i), render_lanes) <= i,
        first_skip(p.take(i + 1), render_lanes) <= i + 1,
        first_skip(p.take(i), render_lanes) < i ==> first_skip(p.take(i + 1), render_lanes) == first_skip(p.take(i), render_lanes),
        first_skip(p.take(i), render_lanes) == i ==> first_skip(p.take(i + 1), render_lanes) == (if skipped(p[i], render_lanes) { i } else { i + 1 }),
    decreases i,
{
    assert(p.take(i + 1).drop_last() =~= p.take(i));
    if i > 0 {
        first_skip_prefix(p, i - 1, render_lanes);
    }
}

/// The last applied update lies within the sequence and is not skipped.
pub proof fn lemma_last_applied_bounds(p: Seq<Update>, render_lanes: Lane)
    ensures
        -1 <= last_applied(p, render_lanes) < p.len(),
        last_applied(p, render_lanes) >= 0 ==> !skipped(p[last_applied(p, render_lanes)], render_lanes),
    decreases p.len(),
{
    if p.len() > 0 {
        lemma_last_applied_bounds(p.drop_last(), render_lanes);
    }
}

/// When the render lanes cover the lane of every update, processing the
/// queue skips nothing: every update is applied, the last one gives the
/// state, no update is kept for later and no lane is left over.
pub proof fn lemma_nothing_skipped(p: Seq<Update>, render_lanes: Lane)
    requires
        forall|i: int| 0 <= i < p.len() ==> !skipped(#[trigger] p[i], render_lanes),
    ensures
        first_skip(p, render_lanes) == p.len(),
        last_applied(p, render_lanes) == p.len() - 1,
        skipped_bits(p, render_lanes) == 0,
        kept_queue(p, render_lanes) == Seq::<Update>::empty(),
    decreases p.len(),
{
    if p.len() > 0 {
        let q = p.drop_last();
        assert forall|i: int| 0 <= i < q.len() implies !skipped(#[trigger] q[i], render_lanes) by {
            assert(q[i] == p[i]);
        }
        lemma_nothing_skipped(q, render_lanes);
        assert(!skipped(p[p.len() - 1], render_lanes));
    }
}

} // verus!
