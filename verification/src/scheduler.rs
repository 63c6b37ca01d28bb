use vstd::prelude::*;
use crate::heap::push;
use crate::heap::pop;
use crate::heap::peek;
use crate::heap::is_heap;
use crate::heap::is_empty;
use crate::order::lemma_key_order;
use crate::order::total_order;
use crate::order::lemma_key_le;
use crate::heap::lemma_heap_root_min;

verus! {

broadcast use vstd::seq_lib::group_to_multiset_ensures;

/// A task whose expiration time has not come yet runs only while less than
/// this many milliseconds of the current frame have passed.
pub const FRAME_YIELD_MS: i64 = 5;

/// The largest time in milliseconds that the scheduler takes: the largest
/// integer a JavaScript number holds exactly.
pub const MAX_TIME: i64 = 0x0020_0000_0000_0000;

/// The bound on every time the scheduler stores.
pub const TIME_BOUND: i64 = 0x0080_0000_0000_0000;

/// The priority levels of scheduled work, most urgent first.
#[derive(Debug, Clone, Copy, PartialEq, Eq, Structural)]
pub enum Priority {
    ImmediatePriority,
    UserBlockingPriority,
    NormalPriority,
    LowPriority,
    IdlePriority,
}

/// How long, in milliseconds, a task of a priority may wait before it expires.
pub open spec fn priority_timeout(p: Priority) -> i64 {
    match p {
        Priority::NormalPriority => 5000i64,
        Priority::ImmediatePriority => -1i64,
        Priority::UserBlockingPriority => 250,
        Priority::IdlePriority => 1073741823,
        Priority::LowPriority => 10000,
    }
}

/// How long, in milliseconds, a task of a priority may wait before it expires.
pub fn get_priority_timeout(priority_level: Priority) -> (r: i64)
    ensures
        r == priority_timeout(priority_level),
{
    match priority_level {
        Priority::NormalPriority => 5000,
        Priority::ImmediatePriority => -1,
        Priority::UserBlockingPriority => 250,
        Priority::IdlePriority => 1073741823,
        Priority::LowPriority => 10000,
    }
}

/// A scheduled unit of work. `callback` is the handle of the function to run;
/// it is `None` once the task ran to completion or was cancelled.
#[derive(Debug, Clone, Copy, PartialEq, Eq, Structural)]
pub struct Task {
    pub id: u32,
    pub callback: Option<u64>,
    pub priority_level: Priority,
    pub start_time: i64,
    pub expiration_time: i64,
    pub sort_index: i64,
}

/// What the host must do for the scheduler.
#[derive(Debug, Clone, Copy, PartialEq, Eq, Structural)]
pub enum HostAction {
    /// Clear the pending timeout.
    CancelHostTimeout,
    /// Call `handle_timeout` after this many milliseconds.
    RequestHostTimeout(i64),
    /// Run `perform_work_until_deadline` in a new macrotask.
    SchedulePerformWorkUntilDeadline,
}

/// What the work loop does next.
#[derive(Debug, Clone, Copy, PartialEq, Eq, Structural)]
pub enum WorkStep {
    /// Call the task's callback with `did_timeout`, then report with `complete_task`.
    Run { task_id: u32, callback: u64, did_timeout: bool },
    /// Time is up: stop and leave the remaining tasks for a later slice.
    Yield,
    /// No task is left.
    Idle,
}

/// The scheduler's state: the queue of due tasks and the queue of delayed
/// tasks, each a min-heap of `(sort index, id)` keys, the records of the
/// tasks, and the flags that track the host callbacks and timeouts.
pub struct Scheduler {
    task_id_counter: u32,
    task_queue: Vec<(i64, u32)>,
    timer_queue: Vec<(i64, u32)>,
    tasks: Vec<Task>,
    is_host_timeout_scheduled: bool,
    is_host_callback_scheduled: bool,
    is_performing_work: bool,
    has_scheduled_host_callback: bool,
    is_message_loop_running: bool,
    start_time: i64,
    current_priority_level: Priority,
    current_task: Option<u32>,
}

/// The state of a scheduler as contracts see it.
pub struct SchedulerView {
    pub task_id_counter: u32,
    pub task_queue: Seq<(i64, u32)>,
    pub timer_queue: Seq<(i64, u32)>,
    pub tasks: Seq<Task>,
    pub is_host_timeout_scheduled: bool,
    pub is_host_callback_scheduled: bool,
    pub is_performing_work: bool,
    pub has_scheduled_host_callback: bool,
    pub is_message_loop_running: bool,
    pub start_time: i64,
    pub current_priority_level: Priority,
    pub current_task: Option<u32>,
}

/// A time the scheduler may store.
pub open spec fn time_ok(t: i64) -> bool {
    -TIME_BOUND <= t <= TIME_BOUND
}

impl SchedulerView {
    /// The state is consistent: both queues are heaps, task ids are unique
    /// and below the next id, and stored times are bounded.
    pub open spec fn wf(self) -> bool {
        &&& is_heap(self.task_queue)
        &&& is_heap(self.timer_queue)
        &&& forall|i: int, j: int|
            0 <= i < j < self.tasks.len() ==> self.tasks[i].id != self.tasks[j].id
        &&& forall|i: int| 0 <= i < self.tasks.len() ==> self.tasks[i].id < self.task_id_counter
        &&& forall|i: int|
            0 <= i < self.tasks.len() ==> {
                &&& time_ok(#[trigger] self.tasks[i].start_time)
                &&& time_ok(self.tasks[i].expiration_time)
                &&& time_ok(self.tasks[i].sort_index)
            }
        &&& forall|i: int| 0 <= i < self.task_queue.len() ==> time_ok(#[trigger] self.task_queue[i].0)
        &&& forall|i: int| 0 <= i < self.timer_queue.len() ==> time_ok(#[trigger] self.timer_queue[i].0)
        &&& time_ok(self.start_time)
        &&& self.task_queue.len() + self.timer_queue.len() < usize::MAX
    }

    /// There is a record of the task with this id.
    pub open spec fn has_record(self, id: u32) -> bool {
        exists|i: int| 0 <= i < self.tasks.len() && self.tasks[i].id == id
    }

    /// The record of the task with this id.
    pub open spec fn record(self, id: u32) -> Task {
        self.tasks[choose|i: int| 0 <= i < self.tasks.len() && self.tasks[i].id == id]
    }

    /// A task still to run: it has a record whose callback is set.
    pub open spec fn live(self, id: u32) -> bool {
        self.has_record(id) && self.record(id).callback is Some
    }

    /// The state with no host timeout pending.
    pub open spec fn timeout_cleared(self) -> SchedulerView {
        SchedulerView { is_host_timeout_scheduled: false, ..self }
    }

    /// The task records by id.
    pub open spec fn task_map(self) -> Map<u32, Task> {
        Map::new(|id: u32| self.has_record(id), |id: u32| self.record(id))
    }

    /// Ids are unique among the records.
    pub open spec fn ids_unique(self) -> bool {
        forall|i: int, j: int|
            0 <= i < j < self.tasks.len() ==> self.tasks[i].id != self.tasks[j].id
    }
}

/// A task that `advance_timers` moved into the task queue under key `k`: it
/// is still to run, it has started, and its key is its expiration time.
pub open spec fn moved_ok(v: SchedulerView, k: (i64, u32), current_time: i64) -> bool {
    &&& v.live(k.1)
    &&& v.record(k.1).start_time <= current_time
    &&& v.record(k.1).expiration_time == k.0
}

/// A delayed task that keeps waiting: still to run and not started yet.
pub open spec fn blocking(v: SchedulerView, id: u32, current_time: i64) -> bool {
    v.live(id) && v.record(id).start_time > current_time
}

/// `b`'s records are `a`'s, less some that were not live, and with only the
/// sort index changed.
pub open spec fn records_kept(a: SchedulerView, b: SchedulerView) -> bool {
    &&& forall|id: u32| #[trigger] b.has_record(id) ==> a.has_record(id) && b.record(id) == (Task {
        sort_index: b.record(id).sort_index,
        ..a.record(id)
    })
    &&& forall|id: u32| a.has_record(id) && !b.has_record(id) ==> !#[trigger] a.live(id)
}

/// The number of entries of task `id` in the queue contents `m`.
pub open spec fn id_count(m: vstd::multiset::Multiset<(i64, u32)>, id: u32) -> nat {
    m.filter(of_task(id)).len()
}

/// The entries of task `id`.
pub open spec fn of_task(id: u32) -> spec_fn((i64, u32)) -> bool {
    |e: (i64, u32)| e.1 == id
}

/// Adding an entry counts for its task only.
proof fn lemma_id_count_insert(m: vstd::multiset::Multiset<(i64, u32)>, v: (i64, u32), id: u32)
    ensures
        id_count(m.insert(v), id) == id_count(m, id) + (if v.1 == id { 1nat } else { 0nat }),
{
    broadcast use vstd::multiset::group_multiset_axioms;

    let f = of_task(id);
    if v.1 == id {
        assert(m.insert(v).filter(f) =~= m.filter(f).insert(v));
    } else {
        assert(m.insert(v).filter(f) =~= m.filter(f));
    }
}

/// Removing an entry that is there counts for its task only.
proof fn lemma_id_count_remove(m: vstd::multiset::Multiset<(i64, u32)>, v: (i64, u32), id: u32)
    requires
        m.count(v) > 0,
    ensures
        id_count(m.remove(v), id) + (if v.1 == id { 1nat } else { 0nat }) == id_count(m, id),
{
    broadcast use vstd::multiset::group_multiset_axioms;

    assert(m.remove(v).insert(v) =~= m);
    lemma_id_count_insert(m.remove(v), v, id);
}

/// `b` comes from `a` by moving due delayed tasks into the task queue and
/// dropping cancelled delayed tasks: each entry of a live task that leaves
/// the timer queue adds exactly one entry of that task to the task queue.
pub open spec fn advanced(a: SchedulerView, b: SchedulerView, current_time: i64) -> bool {
    &&& b == (SchedulerView {
        tasks: b.tasks,
        task_queue: b.task_queue,
        timer_queue: b.timer_queue,
        ..a
    })
    &&& b.timer_queue.to_multiset().subset_of(a.timer_queue.to_multiset())
    &&& a.task_queue.to_multiset().subset_of(b.task_queue.to_multiset())
    &&& forall|k: (i64, u32)|
        #[trigger] b.timer_queue.to_multiset().count(k) < a.timer_queue.to_multiset().count(k)
            ==> !blocking(a, k.1, current_time)
    &&& forall|k: (i64, u32)|
        #[trigger] b.task_queue.to_multiset().count(k) > a.task_queue.to_multiset().count(k)
            ==> moved_ok(b, k, current_time)
    &&& forall|k: (i64, u32)|
        #[trigger] b.timer_queue.to_multiset().count(k) < a.timer_queue.to_multiset().count(k) && a.live(k.1)
            ==> b.task_queue.to_multiset().count((a.record(k.1).expiration_time, k.1))
            > a.task_queue.to_multiset().count((a.record(k.1).expiration_time, k.1))
    &&& forall|id: u32|
        #[trigger] id_count(b.task_queue.to_multiset(), id) == id_count(a.task_queue.to_multiset(), id) + (if a.live(id) {
            id_count(a.timer_queue.to_multiset(), id) - id_count(b.timer_queue.to_multiset(), id)
        } else {
            0
        })
    &&& records_kept(a, b)
}

proof fn lemma_advanced_refl(a: SchedulerView, current_time: i64)
    ensures
        advanced(a, a, current_time),
{
    broadcast use vstd::multiset::group_multiset_axioms;
}

proof fn lemma_advanced_trans(a: SchedulerView, b: SchedulerView, c: SchedulerView, current_time: i64)
    requires
        advanced(a, b, current_time),
        advanced(b, c, current_time),
    ensures
        advanced(a, c, current_time),
{
    broadcast use vstd::multiset::group_multiset_axioms;

    assert forall|k: (i64, u32)|
        #[trigger] c.timer_queue.to_multiset().count(k) < a.timer_queue.to_multiset().count(k)
        implies !blocking(a, k.1, current_time) by {
        if c.timer_queue.to_multiset().count(k) < b.timer_queue.to_multiset().count(k) {
            assert(!blocking(b, k.1, current_time));
            if b.has_record(k.1) {
                assert(b.record(k.1) == (Task { sort_index: b.record(k.1).sort_index, ..a.record(k.1) }));
            } else if a.has_record(k.1) {
                assert(!a.live(k.1));
            }
        }
    }
    assert forall|k: (i64, u32)|
        #[trigger] c.task_queue.to_multiset().count(k) > a.task_queue.to_multiset().count(k)
        implies moved_ok(c, k, current_time) by {
        if c.task_queue.to_multiset().count(k) <= b.task_queue.to_multiset().count(k) {
            assert(moved_ok(b, k, current_time));
            assert(b.live(k.1));
            assert(c.has_record(k.1));
            assert(c.record(k.1) == (Task { sort_index: c.record(k.1).sort_index, ..b.record(k.1) }));
        }
    }
    assert forall|id: u32| #[trigger] c.has_record(id) implies a.has_record(id) && c.record(id) == (Task {
        sort_index: c.record(id).sort_index,
        ..a.record(id)
    }) by {
        assert(b.has_record(id));
    }
    assert forall|id: u32| a.has_record(id) && !c.has_record(id) implies !#[trigger] a.live(id) by {
        if b.has_record(id) {
            assert(!b.live(id));
            assert(b.record(id) == (Task { sort_index: b.record(id).sort_index, ..a.record(id) }));
        }
    }
    assert forall|k: (i64, u32)|
        #[trigger] c.timer_queue.to_multiset().count(k) < a.timer_queue.to_multiset().count(k) && a.live(k.1)
        implies c.task_queue.to_multiset().count((a.record(k.1).expiration_time, k.1))
            > a.task_queue.to_multiset().count((a.record(k.1).expiration_time, k.1)) by {
        let m = (a.record(k.1).expiration_time, k.1);
        assert(b.has_record(k.1));
        assert(b.record(k.1) == (Task { sort_index: b.record(k.1).sort_index, ..a.record(k.1) }));
        assert(b.live(k.1));
        assert(c.task_queue.to_multiset().count(m) >= b.task_queue.to_multiset().count(m));
        assert(b.task_queue.to_multiset().count(m) >= a.task_queue.to_multiset().count(m));
        if b.timer_queue.to_multiset().count(k) < a.timer_queue.to_multiset().count(k) {
        } else {
            assert(c.timer_queue.to_multiset().count(k) < b.timer_queue.to_multiset().count(k));
        }
    }
    assert forall|id: u32| #[trigger] id_count(c.task_queue.to_multiset(), id) == id_count(a.task_queue.to_multiset(), id) + (if a.live(id) {
        id_count(a.timer_queue.to_multiset(), id) - id_count(c.timer_queue.to_multiset(), id)
    } else {
        0
    }) by {
        assert(id_count(b.task_queue.to_multiset(), id) == id_count(a.task_queue.to_multiset(), id) + (if a.live(id) {
            id_count(a.timer_queue.to_multiset(), id) - id_count(b.timer_queue.to_multiset(), id)
        } else {
            0
        }));
        assert(id_count(c.task_queue.to_multiset(), id) == id_count(b.task_queue.to_multiset(), id) + (if b.live(id) {
            id_count(b.timer_queue.to_multiset(), id) - id_count(c.timer_queue.to_multiset(), id)
        } else {
            0
        }));
        if a.live(id) {
            assert(b.has_record(id));
            assert(b.record(id) == (Task { sort_index: b.record(id).sort_index, ..a.record(id) }));
        }
        if b.live(id) {
            assert(a.has_record(id));
            assert(b.record(id) == (Task { sort_index: b.record(id).sort_index, ..a.record(id) }));
        }
    }
}

/// The work loop stops at a task that has not expired when there is no time
/// left or the host wants the thread back.
pub open spec fn should_stop(t: Task, current_time: i64, has_time_remaining: bool, should_yield: bool) -> bool {
    t.expiration_time > current_time && (!has_time_remaining || should_yield)
}

/// `b` comes from `a` by dropping, from the root of the task queue, tasks
/// that were cancelled or done and at which the loop did not stop.
pub open spec fn drained(a: SchedulerView, b: SchedulerView, now: i64, htr: bool, sy: bool) -> bool {
    &&& b == (SchedulerView { tasks: b.tasks, task_queue: b.task_queue, ..a })
    &&& b.task_queue.to_multiset().subset_of(a.task_queue.to_multiset())
    &&& forall|k: (i64, u32)|
        #[trigger] b.task_queue.to_multiset().count(k) < a.task_queue.to_multiset().count(k)
            ==> !a.live(k.1) && !(a.has_record(k.1) && should_stop(a.record(k.1), now, htr, sy))
    &&& forall|id: u32| #[trigger] b.has_record(id) ==> a.has_record(id) && b.record(id) == a.record(id)
    &&& forall|id: u32|
        a.has_record(id) && !b.has_record(id) ==> !#[trigger] a.live(id) && !should_stop(
            a.record(id),
            now,
            htr,
            sy,
        )
}

proof fn lemma_drained_refl(a: SchedulerView, now: i64, htr: bool, sy: bool)
    ensures
        drained(a, a, now, htr, sy),
{
    broadcast use vstd::multiset::group_multiset_axioms;
}

proof fn lemma_drained_trans(
    a: SchedulerView,
    b: SchedulerView,
    c: SchedulerView,
    now: i64,
    htr: bool,
    sy: bool,
)
    requires
        drained(a, b, now, htr, sy),
        drained(b, c, now, htr, sy),
    ensures
        drained(a, c, now, htr, sy),
{
    broadcast use vstd::multiset::group_multiset_axioms;

    assert forall|k: (i64, u32)|
        #[trigger] c.task_queue.to_multiset().count(k) < a.task_queue.to_multiset().count(k)
        implies !a.live(k.1) && !(a.has_record(k.1) && should_stop(a.record(k.1), now, htr, sy)) by {
        if c.task_queue.to_multiset().count(k) < b.task_queue.to_multiset().count(k) {
            if b.has_record(k.1) {
                assert(b.record(k.1) == a.record(k.1));
            } else if a.has_record(k.1) {
                assert(!a.live(k.1));
            }
        }
    }
    assert forall|id: u32| #[trigger] c.has_record(id) implies a.has_record(id) && c.record(id) == a.record(id) by {
        assert(b.has_record(id));
    }
    assert forall|id: u32| a.has_record(id) && !c.has_record(id) implies !#[trigger] a.live(id) && !should_stop(
        a.record(id),
        now,
        htr,
        sy,
    ) by {
        if b.has_record(id) {
            assert(!b.live(id));
            assert(b.record(id) == a.record(id));
        }
    }
}

/// What a work loop step that does not drop the root task leaves behind:
/// `post` from `mid`, as `work_loop_next` describes.
pub open spec fn step_result(
    mid: SchedulerView,
    post: SchedulerView,
    step: WorkStep,
    current_time: i64,
    has_time_remaining: bool,
    should_yield: bool,
) -> bool {
    &&& post.task_queue == mid.task_queue
    &&& post.timer_queue == mid.timer_queue
    &&& match step {
        WorkStep::Idle => {
            &&& post == (SchedulerView { current_task: None, ..mid })
            &&& post.task_queue.len() == 0
        },
        WorkStep::Yield => {
            &&& post == (SchedulerView { current_task: Some(post.task_queue[0].1), ..mid })
            &&& post.task_queue.len() > 0
            &&& mid.has_record(post.task_queue[0].1)
            &&& should_stop(mid.record(post.task_queue[0].1), current_time, has_time_remaining, should_yield)
        },
        WorkStep::Run { task_id, callback, did_timeout } => {
            &&& post.task_queue.len() > 0
            &&& post.task_queue[0].1 == task_id
            &&& mid.live(task_id)
            &&& mid.record(task_id).callback == Some(callback)
            &&& !should_stop(mid.record(task_id), current_time, has_time_remaining, should_yield)
            &&& did_timeout == (mid.record(task_id).expiration_time <= current_time)
            &&& post == (SchedulerView {
                tasks: post.tasks,
                current_priority_level: mid.record(task_id).priority_level,
                current_task: Some(task_id),
                ..mid
            })
            &&& post.task_map() == mid.task_map().insert(
                task_id,
                (Task { callback: None, ..mid.record(task_id) }),
            )
        },
    }
}

/// Consistency depends only on the queues, the records, the next id and the
/// slice start.
proof fn lemma_wf_frame(a: SchedulerView, b: SchedulerView)
    requires
        a.wf(),
        b.tasks == a.tasks,
        b.task_queue == a.task_queue,
        b.timer_queue == a.timer_queue,
        b.task_id_counter == a.task_id_counter,
        b.start_time == a.start_time,
    ensures
        b.wf(),
{
}

/// Replacing a record by one of the same id and bounded times keeps consistency.
proof fn lemma_wf_set(a: SchedulerView, b: SchedulerView, i: int, t: Task)
    requires
        a.wf(),
        0 <= i < a.tasks.len(),
        t.id == a.tasks[i].id,
        time_ok(t.start_time),
        time_ok(t.expiration_time),
        time_ok(t.sort_index),
        b == (SchedulerView { tasks: a.tasks.update(i, t), ..a }),
    ensures
        b.wf(),
{
    assert forall|x: int, y: int| 0 <= x < y < b.tasks.len() implies b.tasks[x].id != b.tasks[y].id by {
        assert(b.tasks[x].id == a.tasks[x].id);
        assert(b.tasks[y].id == a.tasks[y].id);
    }
    assert forall|x: int| 0 <= x < b.tasks.len() implies b.tasks[x].id < b.task_id_counter by {
        assert(b.tasks[x].id == a.tasks[x].id);
    }
    assert forall|x: int| 0 <= x < b.tasks.len() implies {
        &&& time_ok(#[trigger] b.tasks[x].start_time)
        &&& time_ok(b.tasks[x].expiration_time)
        &&& time_ok(b.tasks[x].sort_index)
    } by {
        if x != i {
            assert(b.tasks[x] == a.tasks[x]);
            assert(time_ok(a.tasks[x].start_time));
        }
    }
}

/// Removing a record keeps consistency.
proof fn lemma_wf_remove(a: SchedulerView, b: SchedulerView, i: int)
    requires
        a.wf(),
        0 <= i < a.tasks.len(),
        b == (SchedulerView { tasks: a.tasks.remove(i), ..a }),
    ensures
        b.wf(),
{
    assert forall|x: int, y: int| 0 <= x < y < b.tasks.len() implies b.tasks[x].id != b.tasks[y].id by {
        let ox = if x < i { x } else { x + 1 };
        let oy = if y < i { y } else { y + 1 };
        assert(b.tasks[x] == a.tasks[ox]);
        assert(b.tasks[y] == a.tasks[oy]);
    }
    assert forall|x: int| 0 <= x < b.tasks.len() implies b.tasks[x].id < b.task_id_counter by {
        let ox = if x < i { x } else { x + 1 };
        assert(b.tasks[x] == a.tasks[ox]);
    }
    assert forall|x: int| 0 <= x < b.tasks.len() implies {
        &&& time_ok(#[trigger] b.tasks[x].start_time)
        &&& time_ok(b.tasks[x].expiration_time)
        &&& time_ok(b.tasks[x].sort_index)
    } by {
        let ox = if x < i { x } else { x + 1 };
        assert(b.tasks[x] == a.tasks[ox]);
        assert(time_ok(a.tasks[ox].start_time));
    }
}

/// Changing the queues to bounded heaps of no greater total size keeps consistency.
proof fn lemma_wf_queues(a: SchedulerView, b: SchedulerView)
    requires
        a.wf(),
        b.tasks == a.tasks,
        b.task_id_counter == a.task_id_counter,
        b.start_time == a.start_time,
        is_heap(b.task_queue),
        is_heap(b.timer_queue),
        keys_bounded(b.task_queue),
        keys_bounded(b.timer_queue),
        b.task_queue.len() + b.timer_queue.len() < usize::MAX,
    ensures
        b.wf(),
{
}

/// Dropping a root task that is not live and at which the loop does not stop
/// drains the queue.
proof fn lemma_drained_drop(a: SchedulerView, b: SchedulerView, key: (i64, u32), now: i64, htr: bool, sy: bool)
    requires
        b == (SchedulerView { tasks: b.tasks, task_queue: b.task_queue, ..a }),
        b.task_queue.to_multiset() == a.task_queue.to_multiset().remove(key),
        b.task_map() == a.task_map().remove(key.1),
        !a.live(key.1),
        !(a.has_record(key.1) && should_stop(a.record(key.1), now, htr, sy)),
    ensures
        drained(a, b, now, htr, sy),
{
    broadcast use vstd::multiset::group_multiset_axioms;

    assert forall|id: u32| #[trigger] b.has_record(id) implies a.has_record(id) && b.record(id) == a.record(id) by {
        assert(b.task_map().contains_key(id));
        assert(b.task_map()[id] == b.record(id));
        assert(a.task_map().remove(key.1).contains_key(id));
        assert(id != key.1);
        assert(a.task_map().contains_key(id));
        assert(a.task_map().remove(key.1)[id] == a.task_map()[id]);
        assert(a.task_map()[id] == a.record(id));
    }
    assert forall|id: u32| a.has_record(id) && !b.has_record(id) implies !#[trigger] a.live(id) && !should_stop(
        a.record(id),
        now,
        htr,
        sy,
    ) by {
        assert(a.task_map().contains_key(id));
        assert(!b.task_map().contains_key(id));
        assert(id == key.1);
    }
}

/// Dropping the root delayed task, not live, keeps `advanced`.
proof fn lemma_advanced_drop(a: SchedulerView, b: SchedulerView, key: (i64, u32), now: i64)
    requires
        b == (SchedulerView { tasks: b.tasks, timer_queue: b.timer_queue, ..a }),
        b.timer_queue.to_multiset() == a.timer_queue.to_multiset().remove(key),
        b.task_map() == a.task_map().remove(key.1),
        !a.live(key.1),
    ensures
        advanced(a, b, now),
{
    broadcast use vstd::multiset::group_multiset_axioms;

    assert forall|id: u32| #[trigger] b.has_record(id) implies a.has_record(id) && b.record(id) == (Task {
        sort_index: b.record(id).sort_index,
        ..a.record(id)
    }) by {
        assert(b.task_map().contains_key(id));
        assert(b.task_map()[id] == b.record(id));
        assert(a.task_map().remove(key.1).contains_key(id));
        assert(id != key.1);
        assert(a.task_map().contains_key(id));
        assert(a.task_map().remove(key.1)[id] == a.task_map()[id]);
        assert(a.task_map()[id] == a.record(id));
    }
    assert forall|id: u32| a.has_record(id) && !b.has_record(id) implies !#[trigger] a.live(id) by {
        assert(a.task_map().contains_key(id));
        assert(!b.task_map().contains_key(id));
        assert(id == key.1);
    }
    assert forall|id: u32| #[trigger] id_count(b.task_queue.to_multiset(), id) == id_count(a.task_queue.to_multiset(), id) + (if a.live(id) {
        id_count(a.timer_queue.to_multiset(), id) - id_count(b.timer_queue.to_multiset(), id)
    } else {
        0
    }) by {
        if a.timer_queue.to_multiset().count(key) > 0 {
            lemma_id_count_remove(a.timer_queue.to_multiset(), key, id);
        } else {
            assert(a.timer_queue.to_multiset().remove(key) =~= a.timer_queue.to_multiset());
        }
    }
}

/// Moving the root delayed task, live and started, into the task queue keeps
/// `advanced`.
proof fn lemma_advanced_move(a: SchedulerView, b: SchedulerView, key: (i64, u32), t: Task, now: i64)
    requires
        b == (SchedulerView { tasks: b.tasks, task_queue: b.task_queue, timer_queue: b.timer_queue, ..a }),
        b.timer_queue.to_multiset() == a.timer_queue.to_multiset().remove(key),
        b.task_queue.to_multiset() == a.task_queue.to_multiset().insert((t.expiration_time, key.1)),
        b.task_map() == a.task_map().insert(key.1, (Task { sort_index: t.expiration_time, ..t })),
        a.timer_queue.len() > 0,
        a.timer_queue[0] == key,
        a.has_record(key.1),
        a.record(key.1) == t,
        t.callback is Some,
        t.start_time <= now,
    ensures
        advanced(a, b, now),
{
    broadcast use vstd::multiset::group_multiset_axioms;

    assert(!blocking(a, key.1, now));
    assert forall|id: u32| #[trigger] b.has_record(id) implies a.has_record(id) && b.record(id) == (Task {
        sort_index: b.record(id).sort_index,
        ..a.record(id)
    }) by {
        assert(b.task_map().contains_key(id));
        assert(b.task_map()[id] == b.record(id));
        if id != key.1 {
            assert(a.task_map().contains_key(id));
            assert(a.task_map()[id] == a.record(id));
        }
    }
    assert forall|id: u32| a.has_record(id) && !b.has_record(id) implies !#[trigger] a.live(id) by {
        assert(a.task_map().contains_key(id));
        assert(b.task_map().contains_key(id));
    }
    assert forall|k: (i64, u32)|
        #[trigger] b.task_queue.to_multiset().count(k) > a.task_queue.to_multiset().count(k)
        implies moved_ok(b, k, now) by {
        assert(k == (t.expiration_time, key.1));
        assert(b.task_map().contains_key(key.1));
        assert(b.task_map()[key.1] == b.record(key.1));
    }
    assert forall|id: u32| #[trigger] id_count(b.task_queue.to_multiset(), id) == id_count(a.task_queue.to_multiset(), id) + (if a.live(id) {
        id_count(a.timer_queue.to_multiset(), id) - id_count(b.timer_queue.to_multiset(), id)
    } else {
        0
    }) by {
        lemma_id_count_insert(a.task_queue.to_multiset(), (t.expiration_time, key.1), id);
        assert(a.timer_queue.contains(key));
        lemma_id_count_remove(a.timer_queue.to_multiset(), key, id);
        if id == key.1 {
            assert(a.live(id));
        }
    }
}

/// Records depend on the task table alone.
proof fn lemma_same_tasks(a: SchedulerView, b: SchedulerView)
    requires
        a.tasks == b.tasks,
    ensures
        a.task_map() == b.task_map(),
        forall|id: u32| #[trigger] a.has_record(id) == b.has_record(id),
        forall|id: u32| #[trigger] a.record(id) == b.record(id),
        forall|id: u32| #[trigger] a.live(id) == b.live(id),
{
}

/// The work loop takes tasks earliest expiration first: the root of the task
/// queue, which `work_loop_next` hands out, has the least sort index of all
/// queued tasks, and the least id among those of that sort index. The same
/// holds of the timer queue, by start time.
pub proof fn lemma_root_is_earliest(v: SchedulerView, i: int)
    requires
        v.wf(),
        0 <= i < v.task_queue.len(),
    ensures
        v.task_queue[0].0 < v.task_queue[i].0 || (v.task_queue[0].0 == v.task_queue[i].0
            && v.task_queue[0].1 <= v.task_queue[i].1),
{
    lemma_key_order();
    lemma_heap_root_min(v.task_queue, i);
    lemma_key_le(v.task_queue[0], v.task_queue[i]);
}

/// A cancelled task is never run: when the task with id `id` has no
/// callback, no step of the work loop hands it out.
pub proof fn lemma_cancelled_task_never_runs(
    pre: SchedulerView,
    mid: SchedulerView,
    post: SchedulerView,
    step: WorkStep,
    now: i64,
    has_time_remaining: bool,
    should_yield: bool,
    id: u32,
)
    requires
        pre.has_record(id),
        pre.record(id).callback is None,
        drained(pre, mid, now, has_time_remaining, should_yield),
        step_result(mid, post, step, now, has_time_remaining, should_yield),
    ensures
        !(step matches WorkStep::Run { task_id, .. } && task_id == id),
{
    match step {
        WorkStep::Run { task_id, .. } => {
            if task_id == id {
                assert(mid.live(id));
                assert(mid.has_record(id));
                assert(mid.record(id) == pre.record(id));
            }
        },
        _ => {},
    }
}

/// The work loop runs, of all queued tasks, the one that expires first
/// (the one scheduled first among those that expire together).
pub proof fn lemma_run_task_is_earliest(
    mid: SchedulerView,
    post: SchedulerView,
    step: WorkStep,
    now: i64,
    has_time_remaining: bool,
    should_yield: bool,
    i: int,
)
    requires
        post.wf(),
        step_result(mid, post, step, now, has_time_remaining, should_yield),
        step is Run,
        0 <= i < post.task_queue.len(),
    ensures
        post.task_queue[0].1 == step->task_id,
        post.task_queue[0].0 < post.task_queue[i].0 || (post.task_queue[0].0 == post.task_queue[i].0
            && post.task_queue[0].1 <= post.task_queue[i].1),
{
    lemma_root_is_earliest(post, i);
}

/// With unique ids, the record at `i` is the record of its id.
proof fn lemma_record_at(v: SchedulerView, i: int)
    requires
        v.ids_unique(),
        0 <= i < v.tasks.len(),
    ensures
        v.has_record(v.tasks[i].id),
        v.record(v.tasks[i].id) == v.tasks[i],
{
    let id = v.tasks[i].id;
    assert(v.has_record(id));
    let k = choose|k: int| 0 <= k < v.tasks.len() && v.tasks[k].id == id;
    if k != i {
        if k < i {
            assert(v.tasks[k].id != v.tasks[i].id);
        } else {
            assert(v.tasks[i].id != v.tasks[k].id);
        }
    }
}

/// Removing the record at `i` removes its id from the record map.
proof fn lemma_task_map_remove(a: SchedulerView, b: SchedulerView, i: int)
    requires
        a.ids_unique(),
        0 <= i < a.tasks.len(),
        b.tasks == a.tasks.remove(i),
    ensures
        b.ids_unique(),
        b.task_map() =~= a.task_map().remove(a.tasks[i].id),
{
    let id = a.tasks[i].id;
    assert(b.ids_unique()) by {
        assert forall|x: int, y: int| 0 <= x < y < b.tasks.len() implies b.tasks[x].id != b.tasks[y].id by {
            let ox = if x < i { x } else { x + 1 };
            let oy = if y < i { y } else { y + 1 };
            assert(b.tasks[x] == a.tasks[ox]);
            assert(b.tasks[y] == a.tasks[oy]);
        }
    }
    assert forall|k: u32| #[trigger] b.has_record(k) == (a.has_record(k) && k != id) by {
        if b.has_record(k) {
            let j = choose|j: int| 0 <= j < b.tasks.len() && b.tasks[j].id == k;
            let oj = if j < i { j } else { j + 1 };
            assert(a.tasks[oj].id == k);
            assert(oj != i);
            if k == id {
                if oj < i {
                    assert(a.tasks[oj].id != a.tasks[i].id);
                } else {
                    assert(a.tasks[i].id != a.tasks[oj].id);
                }
            }
        }
        if a.has_record(k) && k != id {
            let j = choose|j: int| 0 <= j < a.tasks.len() && a.tasks[j].id == k;
            assert(j != i);
            let nj = if j < i { j } else { j - 1 };
            assert(b.tasks[nj].id == k);
        }
    }
    assert forall|k: u32| b.has_record(k) implies #[trigger] b.record(k) == a.record(k) by {
        let j = choose|j: int| 0 <= j < b.tasks.len() && b.tasks[j].id == k;
        let oj = if j < i { j } else { j + 1 };
        assert(b.tasks[j] == a.tasks[oj]);
        lemma_record_at(b, j);
        lemma_record_at(a, oj);
    }
}

/// Replacing the record at `i` by one of the same id replaces it in the record map.
proof fn lemma_task_map_update(a: SchedulerView, b: SchedulerView, i: int, t: Task)
    requires
        a.ids_unique(),
        0 <= i < a.tasks.len(),
        t.id == a.tasks[i].id,
        b.tasks == a.tasks.update(i, t),
    ensures
        b.ids_unique(),
        b.task_map() =~= a.task_map().insert(t.id, t),
{
    assert(b.ids_unique()) by {
        assert forall|x: int, y: int| 0 <= x < y < b.tasks.len() implies b.tasks[x].id != b.tasks[y].id by {
            assert(b.tasks[x].id == a.tasks[x].id);
            assert(b.tasks[y].id == a.tasks[y].id);
        }
    }
    assert forall|k: u32| #[trigger] b.has_record(k) == (a.has_record(k) || k == t.id) by {
        if b.has_record(k) {
            let j = choose|j: int| 0 <= j < b.tasks.len() && b.tasks[j].id == k;
            assert(a.tasks[j].id == k);
        }
        if a.has_record(k) {
            let j = choose|j: int| 0 <= j < a.tasks.len() && a.tasks[j].id == k;
            assert(b.tasks[j].id == k);
        }
        if k == t.id {
            assert(b.tasks[i].id == k);
        }
    }
    assert forall|k: u32| b.has_record(k) implies #[trigger] b.record(k) == (if k == t.id { t } else { a.record(k) }) by {
        let j = choose|j: int| 0 <= j < b.tasks.len() && b.tasks[j].id == k;
        lemma_record_at(b, j);
        lemma_record_at(a, j);
        if k == t.id {
            lemma_record_at(b, i);
        }
    }
}

/// Every key of `s` has a bounded sort index.
pub open spec fn keys_bounded(s: Seq<(i64, u32)>) -> bool {
    forall|i: int| 0 <= i < s.len() ==> time_ok(#[trigger] s[i].0)
}

proof fn lemma_keys_bounded_insert(before: Seq<(i64, u32)>, after: Seq<(i64, u32)>, v: (i64, u32))
    requires
        after.to_multiset() == before.to_multiset().insert(v),
        keys_bounded(before),
        time_ok(v.0),
    ensures
        keys_bounded(after),
{
    broadcast use vstd::multiset::group_multiset_axioms;

    assert forall|i: int| 0 <= i < after.len() implies time_ok(#[trigger] after[i].0) by {
        let x = after[i];
        assert(after.contains(x));
        assert(after.to_multiset().count(x) > 0);
        if x != v {
            assert(before.to_multiset().count(x) > 0);
            assert(before.contains(x));
        }
    }
}

proof fn lemma_keys_bounded_remove(before: Seq<(i64, u32)>, after: Seq<(i64, u32)>, v: (i64, u32))
    requires
        after.to_multiset() == before.to_multiset().remove(v),
        keys_bounded(before),
    ensures
        keys_bounded(after),
{
    broadcast use vstd::multiset::group_multiset_axioms;

    assert forall|i: int| 0 <= i < after.len() implies time_ok(#[trigger] after[i].0) by {
        let x = after[i];
        assert(after.contains(x));
        assert(after.to_multiset().count(x) > 0);
        assert(before.to_multiset().count(x) > 0);
        assert(before.contains(x));
    }
}

/// When a task scheduled at `current_time` with `delay` starts.
pub open spec fn scheduled_start(current_time: i64, delay: i64) -> int {
    if delay > 0 {
        current_time + delay
    } else {
        current_time as int
    }
}

impl View for Scheduler {
    type V = SchedulerView;

    closed spec fn view(&self) -> SchedulerView {
        SchedulerView {
            task_id_counter: self.task_id_counter,
            task_queue: self.task_queue@,
            timer_queue: self.timer_queue@,
            tasks: self.tasks@,
            is_host_timeout_scheduled: self.is_host_timeout_scheduled,
            is_host_callback_scheduled: self.is_host_callback_scheduled,
            is_performing_work: self.is_performing_work,
            has_scheduled_host_callback: self.has_scheduled_host_callback,
            is_message_loop_running: self.is_message_loop_running,
            start_time: self.start_time,
            current_priority_level: self.current_priority_level,
            current_task: self.current_task,
        }
    }
}

impl Scheduler {
    /// The priority level that work runs at now.
    pub open spec fn current_priority(&self) -> Priority {
        self@.current_priority_level
    }

    /// A scheduler with no task, at normal priority.
    pub fn new() -> (r: Scheduler)
        ensures
            r@.wf(),
            r@.task_id_counter == 1,
            r@.task_queue.len() == 0,
            r@.timer_queue.len() == 0,
            r@.tasks.len() == 0,
            !r@.is_host_timeout_scheduled,
            !r@.is_host_callback_scheduled,
            !r@.is_performing_work,
            !r@.has_scheduled_host_callback,
            !r@.is_message_loop_running,
            r@.start_time == -1,
            r@.current_priority_level == Priority::NormalPriority,
            r@.current_task is None,
    {
        Scheduler {
            task_id_counter: 1,
            task_queue: Vec::new(),
            timer_queue: Vec::new(),
            tasks: Vec::new(),
            is_host_timeout_scheduled: false,
            is_host_callback_scheduled: false,
            is_performing_work: false,
            has_scheduled_host_callback: false,
            is_message_loop_running: false,
            start_time: -1,
            current_priority_level: Priority::NormalPriority,
            current_task: None,
        }
    }

    /// Whether one more task can be scheduled: task ids and queue sizes
    /// have room left.
    pub fn can_schedule(&self) -> (r: bool)
        requires
            self@.wf(),
        ensures
            r == (self@.task_id_counter < u32::MAX && self@.tasks.len() < usize::MAX
                && self@.task_queue.len() + self@.timer_queue.len() + 1 < usize::MAX),
    {
        if self.task_id_counter == u32::MAX || self.tasks.len() == usize::MAX {
            return false;
        }
        let queued = self.task_queue.len().checked_add(self.timer_queue.len());
        match queued {
            Some(q) => q < usize::MAX - 1,
            None => false,
        }
    }

    /// Makes `priority_level` the level that work runs at (for the time an
    /// event handler runs with it). Returns the level it replaces, which the
    /// caller puts back afterwards; nothing else changes.
    pub fn set_current_priority_level(&mut self, priority_level: Priority) -> (r: Priority)
        ensures
            r == old(self)@.current_priority_level,
            final(self)@ == (SchedulerView { current_priority_level: priority_level, ..old(self)@ }),
    {
        let previous = self.current_priority_level;
        self.current_priority_level = priority_level;
        previous
    }

    /// The priority level that work runs at now.
    pub fn unstable_get_current_priority_level(&self) -> (r: Priority)
        ensures
            r == self.current_priority(),
    {
        self.current_priority_level
    }

    /// Asks the host to run `perform_work_until_deadline`, unless the message
    /// loop already runs.
    fn request_host_callback(&mut self) -> (r: Vec<HostAction>)
        ensures
            final(self)@ == (SchedulerView {
                has_scheduled_host_callback: true,
                is_message_loop_running: true,
                ..old(self)@
            }),
            r@ == (if old(self)@.is_message_loop_running {
                seq![]
            } else {
                seq![HostAction::SchedulePerformWorkUntilDeadline]
            }),
    {
        self.has_scheduled_host_callback = true;
        if !self.is_message_loop_running {
            self.is_message_loop_running = true;
            return vec![HostAction::SchedulePerformWorkUntilDeadline];
        }
        Vec::new()
    }

    /// Schedules `callback` at `priority_level`, to start `delay` milliseconds
    /// after `current_time` (at once when `delay` is not positive). Returns the
    /// new task, as it stood before it got its sort index, and what the host
    /// must do.
    pub fn unstable_schedule_callback(
        &mut self,
        priority_level: Priority,
        callback: u64,
        delay: i64,
        current_time: i64,
    ) -> (r: (Task, Vec<HostAction>))
        requires
            old(self)@.wf(),
            old(self)@.task_id_counter < u32::MAX,
            0 <= current_time <= MAX_TIME,
            delay <= MAX_TIME,
            old(self)@.tasks.len() < usize::MAX,
            old(self)@.task_queue.len() + old(self)@.timer_queue.len() + 1 < usize::MAX,
        ensures
            final(self)@.wf(),
            ({
                let start = scheduled_start(current_time, delay);
                let expiration = start + priority_timeout(priority_level);
                let id = old(self)@.task_id_counter;
                let pre = old(self)@;
                let post = final(self)@;
                &&& r.0 == (Task {
                    id,
                    callback: Some(callback),
                    priority_level,
                    start_time: start as i64,
                    expiration_time: expiration as i64,
                    sort_index: -1i64,
                })
                &&& post.task_id_counter == id + 1
                &&& post.tasks == pre.tasks.push(
                    (Task {
                        sort_index: if start > current_time { start as i64 } else { expiration as i64 },
                        ..r.0
                    }),
                )
                &&& post.is_performing_work == pre.is_performing_work
                &&& post.start_time == pre.start_time
                &&& post.current_priority_level == pre.current_priority_level
                &&& post.current_task == pre.current_task
                &&& start > current_time ==> {
                    &&& post.timer_queue.to_multiset() == pre.timer_queue.to_multiset().insert(
                        (start as i64, id),
                    )
                    &&& post.task_queue == pre.task_queue
                    &&& post.is_host_callback_scheduled == pre.is_host_callback_scheduled
                    &&& post.has_scheduled_host_callback == pre.has_scheduled_host_callback
                    &&& post.is_message_loop_running == pre.is_message_loop_running
                    &&& if pre.task_queue.len() == 0 && post.timer_queue[0].1 == id {
                        &&& post.is_host_timeout_scheduled
                        &&& r.1@ == (if pre.is_host_timeout_scheduled {
                            seq![
                                HostAction::CancelHostTimeout,
                                HostAction::RequestHostTimeout((start - current_time) as i64),
                            ]
                        } else {
                            seq![HostAction::RequestHostTimeout((start - current_time) as i64)]
                        })
                    } else {
                        &&& post.is_host_timeout_scheduled == pre.is_host_timeout_scheduled
                        &&& r.1@ == Seq::<HostAction>::empty()
                    }
                }
                &&& start <= current_time ==> {
                    &&& post.task_queue.to_multiset() == pre.task_queue.to_multiset().insert(
                        (expiration as i64, id),
                    )
                    &&& post.timer_queue == pre.timer_queue
                    &&& post.is_host_timeout_scheduled == pre.is_host_timeout_scheduled
                    &&& if !pre.is_host_callback_scheduled && !pre.is_performing_work {
                        &&& post.is_host_callback_scheduled
                        &&& post.has_scheduled_host_callback
                        &&& post.is_message_loop_running
                        &&& r.1@ == (if pre.is_message_loop_running {
                            Seq::<HostAction>::empty()
                        } else {
                            seq![HostAction::SchedulePerformWorkUntilDeadline]
                        })
                    } else {
                        &&& post.is_host_callback_scheduled == pre.is_host_callback_scheduled
                        &&& post.has_scheduled_host_callback == pre.has_scheduled_host_callback
                        &&& post.is_message_loop_running == pre.is_message_loop_running
                        &&& r.1@ == Seq::<HostAction>::empty()
                    }
                }
            }),
    {
        proof {
            lemma_key_order();
        }
        let ghost pre = self@;
        let mut start_time = current_time;
        if delay > 0 {
            start_time = start_time + delay;
        }
        let timeout = get_priority_timeout(priority_level);
        let expiration_time = start_time + timeout;
        let id = self.task_id_counter;
        let mut new_task = Task {
            id,
            callback: Some(callback),
            priority_level,
            start_time,
            expiration_time,
            sort_index: -1,
        };
        self.task_id_counter = self.task_id_counter + 1;
        let cloned = new_task;
        let mut actions: Vec<HostAction> = Vec::new();
        if start_time > current_time {
            new_task.sort_index = start_time;
            self.tasks.push(new_task);
            let ghost before = self.timer_queue@;
            push(&mut self.timer_queue, (start_time, id));
            proof {
                lemma_keys_bounded_insert(before, self.timer_queue@, (start_time, id));
            }
            if peek(&self.task_queue).is_none() {
                if let Some(task) = peek(&self.timer_queue) {
                    if task.1 == id {
                        if self.is_host_timeout_scheduled {
                            actions.push(HostAction::CancelHostTimeout);
                        } else {
                            self.is_host_timeout_scheduled = true;
                        }
                        actions.push(HostAction::RequestHostTimeout(start_time - current_time));
                    }
                }
            }
        } else {
            new_task.sort_index = expiration_time;
            self.tasks.push(new_task);
            let ghost before = self.task_queue@;
            push(&mut self.task_queue, (expiration_time, id));
            proof {
                lemma_keys_bounded_insert(before, self.task_queue@, (expiration_time, id));
            }
            if !self.is_host_callback_scheduled && !self.is_performing_work {
                self.is_host_callback_scheduled = true;
                actions = self.request_host_callback();
            }
        }
        (cloned, actions)
    }

    /// Cancels a task: it stays queued, but with no callback it is dropped
    /// instead of run when its turn comes.
    pub fn unstable_cancel_callback(&mut self, task: Task)
        requires
            old(self)@.wf(),
        ensures
            final(self)@.wf(),
            final(self)@ == (SchedulerView { tasks: final(self)@.tasks, ..old(self)@ }),
            final(self)@.task_map() == (if old(self)@.has_record(task.id) {
                old(self)@.task_map().insert(
                    task.id,
                    (Task { callback: None, ..old(self)@.record(task.id) }),
                )
            } else {
                old(self)@.task_map()
            }),
    {
        let id = task.id;
        let ghost pre = self@;
        match self.find_task(id) {
            Some(i) => {
                let t = self.tasks[i];
                let cancelled = Task { callback: None, ..t };
                self.tasks.set(i, cancelled);
                proof {
                    lemma_wf_set(pre, self@, i as int, cancelled);
                    lemma_task_map_update(pre, self@, i as int, cancelled);
                }
            },
            None => {
                assert(self@.task_map() =~= pre.task_map());
            },
        }
    }

    /// Reports that the callback of the task the work loop handed out has
    /// returned: with a continuation the task keeps its place and runs it next
    /// time; without one it leaves the queue if it is still at the root.
    pub fn complete_task(&mut self, task_id: u32, continuation: Option<u64>)
        requires
            old(self)@.wf(),
        ensures
            final(self)@.wf(),
            final(self)@ == (SchedulerView {
                tasks: final(self)@.tasks,
                task_queue: final(self)@.task_queue,
                ..old(self)@
            }),
            continuation matches Some(c) ==> {
                &&& final(self)@.task_queue == old(self)@.task_queue
                &&& final(self)@.task_map() == (if old(self)@.has_record(task_id) {
                    old(self)@.task_map().insert(
                        task_id,
                        (Task { callback: Some(c), ..old(self)@.record(task_id) }),
                    )
                } else {
                    old(self)@.task_map()
                })
            },
            continuation is None ==> if old(self)@.task_queue.len() > 0
                && old(self)@.task_queue[0].1 == task_id {
                &&& final(self)@.task_queue.to_multiset() == old(self)@.task_queue.to_multiset().remove(
                    old(self)@.task_queue[0],
                )
                &&& final(self)@.task_map() == old(self)@.task_map().remove(task_id)
            } else {
                &&& final(self)@.task_queue == old(self)@.task_queue
                &&& final(self)@.task_map() == old(self)@.task_map()
            },
    {
        proof {
            lemma_key_order();
        }
        let ghost pre = self@;
        match continuation {
            Some(c) => {
                match self.find_task(task_id) {
                    Some(i) => {
                        let t = self.tasks[i];
                        let resumed = Task { callback: Some(c), ..t };
                        self.tasks.set(i, resumed);
                        proof {
                            lemma_wf_set(pre, self@, i as int, resumed);
                            lemma_task_map_update(pre, self@, i as int, resumed);
                        }
                    },
                    None => {
                        assert(self@.task_map() =~= pre.task_map());
                    },
                }
            },
            None => {
                let at_root = match peek(&self.task_queue) {
                    None => false,
                    Some(task) => task.1 == task_id,
                };
                if at_root {
                    let ghost before = self.task_queue@;
                    pop(&mut self.task_queue);
                    proof {
                        lemma_keys_bounded_remove(before, self.task_queue@, before[0]);
                    }
                    let ghost mid = self@;
                    match self.find_task(task_id) {
                        Some(i) => {
                            self.tasks.remove(i);
                            proof {
                                lemma_task_map_remove(mid, self@, i as int);
                            }
                        },
                        None => {
                            assert(self@.task_map() =~= pre.task_map().remove(task_id));
                        },
                    }
                } else {
                    assert(self@.task_map() =~= pre.task_map());
                }
            },
        }
    }

    /// Moves the delayed tasks whose start time has come into the task queue,
    /// keyed by their expiration time, and drops cancelled delayed tasks, in
    /// the timer queue's order, up to the first delayed task still to wait.
    pub fn advance_timers(&mut self, current_time: i64)
        requires
            old(self)@.wf(),
            time_ok(current_time),
        ensures
            final(self)@.wf(),
            advanced(old(self)@, final(self)@, current_time),
            final(self)@.timer_queue.len() > 0 ==> blocking(
                final(self)@,
                final(self)@.timer_queue[0].1,
                current_time,
            ),
    {
        let ghost pre = self@;
        proof {
            lemma_advanced_refl(pre, current_time);
        }
        loop
            invariant
                self@.wf(),
                time_ok(current_time),
                advanced(pre, self@, current_time),
            ensures
                self@.wf(),
                advanced(pre, self@, current_time),
                self@.timer_queue.len() > 0 ==> blocking(self@, self@.timer_queue[0].1, current_time),
            decreases self@.timer_queue.len(),
        {
            let ghost cur = self@;
            let more = self.advance_timer_step(current_time);
            proof {
                lemma_advanced_trans(pre, cur, self@, current_time);
            }
            if !more {
                break;
            }
        }
    }

    /// One step of `advance_timers`: handles the root of the timer queue.
    /// Returns whether it left the queue.
    fn advance_timer_step(&mut self, current_time: i64) -> (r: bool)
        requires
            old(self)@.wf(),
            time_ok(current_time),
        ensures
            final(self)@.wf(),
            advanced(old(self)@, final(self)@, current_time),
            r ==> final(self)@.timer_queue.len() < old(self)@.timer_queue.len(),
            !r ==> final(self)@ == old(self)@ && (old(self)@.timer_queue.len() > 0 ==> blocking(
                old(self)@,
                old(self)@.timer_queue[0].1,
                current_time,
            )),
    {
        let ghost cur = self@;
        let root = match peek(&self.timer_queue) {
            None => None,
            Some(k) => Some(*k),
        };
        let top = match root {
            None => {
                proof {
                    lemma_advanced_refl(cur, current_time);
                }
                return false;
            },
            Some(k) => k,
        };
        let idx = self.find_task(top.1);
        match idx {
            None => {
                self.drop_root_timer(top, idx);
                proof {
                    lemma_advanced_drop(cur, self@, top, current_time);
                }
                true
            },
            Some(i) => {
                let t = self.tasks[i];
                proof {
                    lemma_record_at(cur, i as int);
                }
                if t.callback.is_none() {
                    self.drop_root_timer(top, idx);
                    proof {
                        lemma_advanced_drop(cur, self@, top, current_time);
                    }
                    true
                } else if t.start_time <= current_time {
                    self.move_root_timer(top, i);
                    proof {
                        lemma_advanced_move(cur, self@, top, t, current_time);
                    }
                    true
                } else {
                    proof {
                        lemma_advanced_refl(cur, current_time);
                    }
                    false
                }
            },
        }
    }

    /// Drops the root of the timer queue, a task with no record or with no
    /// callback, and its record.
    fn drop_root_timer(&mut self, key: (i64, u32), idx: Option<usize>)
        requires
            old(self)@.wf(),
            old(self)@.timer_queue.len() > 0,
            old(self)@.timer_queue[0] == key,
            idx matches Some(i) ==> i < old(self)@.tasks.len() && old(self)@.tasks[i as int].id == key.1
                && old(self)@.tasks[i as int].callback is None,
            idx is None ==> !old(self)@.has_record(key.1),
        ensures
            final(self)@.wf(),
            final(self)@ == (SchedulerView {
                tasks: final(self)@.tasks,
                timer_queue: final(self)@.timer_queue,
                ..old(self)@
            }),
            final(self)@.timer_queue.to_multiset() == old(self)@.timer_queue.to_multiset().remove(key),
            final(self)@.timer_queue.len() < old(self)@.timer_queue.len(),
            final(self)@.task_map() == old(self)@.task_map().remove(key.1),
            !old(self)@.live(key.1),
    {
        proof {
            lemma_key_order();
        }
        let ghost cur = self@;
        let ghost before = self.timer_queue@;
        pop(&mut self.timer_queue);
        proof {
            lemma_keys_bounded_remove(before, self.timer_queue@, key);
            lemma_wf_queues(cur, self@);
            lemma_same_tasks(cur, self@);
        }
        let ghost mid = self@;
        match idx {
            None => {
                assert(self@.task_map() =~= cur.task_map().remove(key.1));
            },
            Some(i) => {
                self.tasks.remove(i);
                proof {
                    lemma_wf_remove(mid, self@, i as int);
                    lemma_task_map_remove(mid, self@, i as int);
                    lemma_record_at(cur, i as int);
                }
            },
        }
    }

    /// Moves the root of the timer queue, whose task has started and is still
    /// to run, into the task queue keyed by its expiration time.
    fn move_root_timer(&mut self, key: (i64, u32), i: usize)
        requires
            old(self)@.wf(),
            old(self)@.timer_queue.len() > 0,
            old(self)@.timer_queue[0] == key,
            i < old(self)@.tasks.len(),
            old(self)@.tasks[i as int].id == key.1,
            old(self)@.tasks[i as int].callback is Some,
        ensures
            final(self)@.wf(),
            ({
                let t = old(self)@.tasks[i as int];
                &&& final(self)@ == (SchedulerView {
                    tasks: final(self)@.tasks,
                    task_queue: final(self)@.task_queue,
                    timer_queue: final(self)@.timer_queue,
                    ..old(self)@
                })
                &&& final(self)@.timer_queue.to_multiset() == old(self)@.timer_queue.to_multiset().remove(key)
                &&& final(self)@.timer_queue.len() < old(self)@.timer_queue.len()
                &&& final(self)@.task_queue.to_multiset() == old(self)@.task_queue.to_multiset().insert(
                    (t.expiration_time, key.1),
                )
                &&& final(self)@.task_map() == old(self)@.task_map().insert(
                    key.1,
                    (Task { sort_index: t.expiration_time, ..t }),
                )
            }),
    {
        proof {
            lemma_key_order();
        }
        let ghost cur = self@;
        let ghost before = self.timer_queue@;
        let t = self.tasks[i];
        pop(&mut self.timer_queue);
        proof {
            lemma_keys_bounded_remove(before, self.timer_queue@, key);
            lemma_wf_queues(cur, self@);
            lemma_same_tasks(cur, self@);
        }
        let ghost mid = self@;
        let moved = Task { sort_index: t.expiration_time, ..t };
        self.tasks.set(i, moved);
        proof {
            lemma_wf_set(mid, self@, i as int, moved);
            lemma_task_map_update(mid, self@, i as int, moved);
        }
        let ghost after_set = self@;
        let ghost before_tasks = self.task_queue@;
        push(&mut self.task_queue, (t.expiration_time, key.1));
        proof {
            lemma_keys_bounded_insert(before_tasks, self.task_queue@, (t.expiration_time, key.1));
            lemma_wf_queues(after_set, self@);
            lemma_same_tasks(after_set, self@);
        }
    }

    /// Whether the host should get the thread back: the current slice has
    /// lasted `FRAME_YIELD_MS` or longer.
    pub fn unstable_should_yield_to_host(&self, current_time: i64) -> (r: bool)
        requires
            self@.wf(),
            0 <= current_time <= MAX_TIME,
        ensures
            r == (current_time - self@.start_time >= FRAME_YIELD_MS),
    {
        let time_elapsed = current_time - self.start_time;
        if time_elapsed < FRAME_YIELD_MS {
            return false;
        }
        true
    }

    /// The next step of the work loop at `current_time`: drops cancelled and
    /// finished tasks at the root of the task queue, stops at a task that has
    /// not expired when there is no time left (`has_time_remaining` false) or
    /// the host wants the thread back (`should_yield`), and otherwise hands
    /// out the root task's callback, clearing it, and runs at its priority.
    pub fn work_loop_next(&mut self, current_time: i64, has_time_remaining: bool, should_yield: bool) -> (r: WorkStep)
        requires
            old(self)@.wf(),
            time_ok(current_time),
        ensures
            final(self)@.wf(),
            ({
                let pre = old(self)@;
                let post = final(self)@;
                exists|mid: SchedulerView| {
                    &&& #[trigger] drained(pre, mid, current_time, has_time_remaining, should_yield)
                    &&& mid.wf()
                    &&& post.task_queue == mid.task_queue
                    &&& post.timer_queue == pre.timer_queue
                    &&& step_result(mid, post, r, current_time, has_time_remaining, should_yield)
                }
            }),
    {
        let ghost pre = self@;
        proof {
            lemma_drained_refl(pre, current_time, has_time_remaining, should_yield);
        }
        let mut result = WorkStep::Idle;
        loop
            invariant_except_break
                drained(pre, self@, current_time, has_time_remaining, should_yield),
            invariant
                self@.wf(),
                time_ok(current_time),
            ensures
                self@.wf(),
                exists|mid: SchedulerView| {
                    &&& #[trigger] drained(pre, mid, current_time, has_time_remaining, should_yield)
                    &&& mid.wf()
                    &&& self@.task_queue == mid.task_queue
                    &&& self@.timer_queue == pre.timer_queue
                    &&& step_result(mid, self@, result, current_time, has_time_remaining, should_yield)
                },
            decreases self@.task_queue.len(),
        {
            let ghost cur = self@;
            match self.work_loop_step(current_time, has_time_remaining, should_yield) {
                Some(step) => {
                    result = step;
                    proof {
                        assert(drained(pre, cur, current_time, has_time_remaining, should_yield));
                    }
                    break;
                },
                None => {
                    proof {
                        lemma_drained_trans(pre, cur, self@, current_time, has_time_remaining, should_yield);
                    }
                },
            }
        }
        result
    }

    /// One step of `work_loop_next`: `None` when it dropped the root task.
    fn work_loop_step(&mut self, current_time: i64, has_time_remaining: bool, should_yield: bool) -> (r: Option<WorkStep>)
        requires
            old(self)@.wf(),
            time_ok(current_time),
        ensures
            final(self)@.wf(),
            r is None ==> drained(old(self)@, final(self)@, current_time, has_time_remaining, should_yield)
                && final(self)@.task_queue.len() < old(self)@.task_queue.len(),
            r matches Some(step) ==> step_result(
                old(self)@,
                final(self)@,
                step,
                current_time,
                has_time_remaining,
                should_yield,
            ),
    {
        let ghost cur = self@;
        let root = match peek(&self.task_queue) {
            None => None,
            Some(k) => Some(*k),
        };
        let top = match root {
            None => {
                self.current_task = None;
                proof {
                    lemma_wf_frame(cur, self@);
                }
                return Some(WorkStep::Idle);
            },
            Some(k) => k,
        };
        let idx = self.find_task(top.1);
        match idx {
            None => {
                self.drop_root_task(top, idx);
                proof {
                    lemma_drained_drop(cur, self@, top, current_time, has_time_remaining, should_yield);
                }
                None
            },
            Some(i) => {
                let t = self.tasks[i];
                proof {
                    lemma_record_at(cur, i as int);
                }
                if t.expiration_time > current_time && (!has_time_remaining || should_yield) {
                    self.current_task = Some(top.1);
                    proof {
                        lemma_wf_frame(cur, self@);
                    }
                    return Some(WorkStep::Yield);
                }
                match t.callback {
                    Some(callback) => {
                        self.take_callback(i);
                        Some(WorkStep::Run {
                            task_id: top.1,
                            callback,
                            did_timeout: t.expiration_time <= current_time,
                        })
                    },
                    None => {
                        self.drop_root_task(top, idx);
                        proof {
                            lemma_drained_drop(cur, self@, top, current_time, has_time_remaining, should_yield);
                        }
                        None
                    },
                }
            },
        }
    }

    /// Drops the root of the task queue, a task with no record or with no
    /// callback, and its record.
    fn drop_root_task(&mut self, key: (i64, u32), idx: Option<usize>)
        requires
            old(self)@.wf(),
            old(self)@.task_queue.len() > 0,
            old(self)@.task_queue[0] == key,
            idx matches Some(i) ==> i < old(self)@.tasks.len() && old(self)@.tasks[i as int].id == key.1
                && old(self)@.tasks[i as int].callback is None,
            idx is None ==> !old(self)@.has_record(key.1),
        ensures
            final(self)@.wf(),
            final(self)@ == (SchedulerView {
                tasks: final(self)@.tasks,
                task_queue: final(self)@.task_queue,
                ..old(self)@
            }),
            final(self)@.task_queue.to_multiset() == old(self)@.task_queue.to_multiset().remove(key),
            final(self)@.task_queue.len() < old(self)@.task_queue.len(),
            final(self)@.task_map() == old(self)@.task_map().remove(key.1),
            !old(self)@.live(key.1),
    {
        proof {
            lemma_key_order();
        }
        let ghost cur = self@;
        let ghost before = self.task_queue@;
        pop(&mut self.task_queue);
        proof {
            lemma_keys_bounded_remove(before, self.task_queue@, key);
            lemma_wf_queues(cur, self@);
            lemma_same_tasks(cur, self@);
        }
        let ghost mid = self@;
        match idx {
            None => {
                assert(self@.task_map() =~= cur.task_map().remove(key.1));
            },
            Some(i) => {
                self.tasks.remove(i);
                proof {
                    lemma_wf_remove(mid, self@, i as int);
                    lemma_task_map_remove(mid, self@, i as int);
                    lemma_record_at(cur, i as int);
                }
            },
        }
    }

    /// Clears the callback of the record at `i` and makes its task the current
    /// one, at its priority.
    fn take_callback(&mut self, i: usize)
        requires
            old(self)@.wf(),
            i < old(self)@.tasks.len(),
        ensures
            final(self)@.wf(),
            ({
                let t = old(self)@.tasks[i as int];
                &&& final(self)@ == (SchedulerView {
                    tasks: final(self)@.tasks,
                    current_priority_level: t.priority_level,
                    current_task: Some(t.id),
                    ..old(self)@
                })
                &&& final(self)@.task_map() == old(self)@.task_map().insert(t.id, (Task { callback: None, ..t }))
            }),
    {
        let ghost cur = self@;
        let t = self.tasks[i];
        let ran = Task { callback: None, ..t };
        self.tasks.set(i, ran);
        proof {
            lemma_wf_set(cur, self@, i as int, ran);
            lemma_task_map_update(cur, self@, i as int, ran);
        }
        let ghost after_set = self@;
        self.current_priority_level = t.priority_level;
        self.current_task = Some(t.id);
        proof {
            lemma_same_tasks(after_set, self@);
            lemma_wf_frame(after_set, self@);
        }
    }

    /// Schedules `callback` at `priority_level` to start at once.
    pub fn unstable_schedule_callback_no_delay(
        &mut self,
        priority_level: Priority,
        callback: u64,
        current_time: i64,
    ) -> (r: (Task, Vec<HostAction>))
        requires
            old(self)@.wf(),
            old(self)@.task_id_counter < u32::MAX,
            0 <= current_time <= MAX_TIME,
            old(self)@.tasks.len() < usize::MAX,
            old(self)@.task_queue.len() + old(self)@.timer_queue.len() + 1 < usize::MAX,
        ensures
            final(self)@.wf(),
            ({
                let expiration = current_time + priority_timeout(priority_level);
                let id = old(self)@.task_id_counter;
                let pre = old(self)@;
                let post = final(self)@;
                &&& r.0 == (Task {
                    id,
                    callback: Some(callback),
                    priority_level,
                    start_time: current_time,
                    expiration_time: expiration as i64,
                    sort_index: -1i64,
                })
                &&& post.task_id_counter == id + 1
                &&& post.tasks == pre.tasks.push((Task { sort_index: expiration as i64, ..r.0 }))
                &&& post.task_queue.to_multiset() == pre.task_queue.to_multiset().insert(
                    (expiration as i64, id),
                )
                &&& post.timer_queue == pre.timer_queue
                &&& post.is_host_timeout_scheduled == pre.is_host_timeout_scheduled
                &&& post.is_performing_work == pre.is_performing_work
                &&& post.start_time == pre.start_time
                &&& post.current_priority_level == pre.current_priority_level
                &&& post.current_task == pre.current_task
                &&& if !pre.is_host_callback_scheduled && !pre.is_performing_work {
                    &&& post.is_host_callback_scheduled
                    &&& post.has_scheduled_host_callback
                    &&& post.is_message_loop_running
                    &&& r.1@ == (if pre.is_message_loop_running {
                        Seq::<HostAction>::empty()
                    } else {
                        seq![HostAction::SchedulePerformWorkUntilDeadline]
                    })
                } else {
                    &&& post.is_host_callback_scheduled == pre.is_host_callback_scheduled
                    &&& post.has_scheduled_host_callback == pre.has_scheduled_host_callback
                    &&& post.is_message_loop_running == pre.is_message_loop_running
                    &&& r.1@ == Seq::<HostAction>::empty()
                }
            }),
    {
        self.unstable_schedule_callback(priority_level, callback, 0, current_time)
    }

    /// Sets the priority level for the event handler that the caller runs
    /// next, and returns the level to give back to `restore_priority_level`
    /// once the handler returned.
    pub fn unstable_run_with_priority(&mut self, priority_level: Priority) -> (previous: Priority)
        requires
            old(self)@.wf(),
        ensures
            final(self)@.wf(),
            previous == old(self)@.current_priority_level,
            final(self)@ == (SchedulerView { current_priority_level: priority_level, ..old(self)@ }),
    {
        let previous_priority_level = self.current_priority_level;
        self.current_priority_level = priority_level;
        previous_priority_level
    }

    /// Gives back the priority level that `unstable_run_with_priority` returned.
    pub fn restore_priority_level(&mut self, previous: Priority)
        requires
            old(self)@.wf(),
        ensures
            final(self)@.wf(),
            final(self)@ == (SchedulerView { current_priority_level: previous, ..old(self)@ }),
    {
        self.current_priority_level = previous;
    }

    /// The host timeout fired at `current_time`: moves the delayed tasks that
    /// have started, then asks for a host callback when tasks are due, or for
    /// a timeout until the first delayed task starts.
    pub fn handle_timeout(&mut self, current_time: i64) -> (r: Vec<HostAction>)
        requires
            old(self)@.wf(),
            0 <= current_time <= MAX_TIME,
        ensures
            final(self)@.wf(),
            exists|mid: SchedulerView| {
                &&& #[trigger] advanced(old(self)@.timeout_cleared(), mid, current_time)
                &&& mid.wf()
                &&& mid.timer_queue.len() > 0 ==> blocking(mid, mid.timer_queue[0].1, current_time)
                &&& if mid.task_queue.len() > 0 {
                    &&& final(self)@ == (SchedulerView {
                        is_host_callback_scheduled: true,
                        has_scheduled_host_callback: true,
                        is_message_loop_running: true,
                        ..mid
                    })
                    &&& r@ == (if mid.is_message_loop_running {
                        Seq::<HostAction>::empty()
                    } else {
                        seq![HostAction::SchedulePerformWorkUntilDeadline]
                    })
                } else if mid.timer_queue.len() > 0 {
                    &&& final(self)@ == mid
                    &&& r@ == seq![HostAction::RequestHostTimeout((mid.timer_queue[0].0 - current_time) as i64)]
                } else {
                    &&& final(self)@ == mid
                    &&& r@ == Seq::<HostAction>::empty()
                }
            },
    {
        self.is_host_timeout_scheduled = false;
        self.advance_timers(current_time);
        let ghost mid = self@;
        let mut actions: Vec<HostAction> = Vec::new();
        if !self.is_host_timeout_scheduled {
            if peek(&self.task_queue).is_some() {
                self.is_host_callback_scheduled = true;
                actions = self.request_host_callback();
            } else {
                let first = match peek(&self.timer_queue) {
                    None => None,
                    Some(k) => Some(*k),
                };
                if let Some(first_timer) = first {
                    proof {
                        assert(time_ok(self@.timer_queue[0].0));
                    }
                    actions.push(HostAction::RequestHostTimeout(first_timer.0 - current_time));
                }
            }
        }
        proof {
            lemma_wf_frame(mid, self@);
            assert(advanced(old(self)@.timeout_cleared(), mid, current_time));
        }
        actions
    }

    /// Starts a slice of work at `current_time`, when the message loop fires.
    /// Returns whether there is a host callback to run: then the caller runs
    /// the flush (`begin_flush_work`, the work loop, `finish_flush_work`) and
    /// reports with `end_perform_work`; otherwise the message loop stops.
    pub fn begin_perform_work(&mut self, current_time: i64) -> (r: bool)
        requires
            old(self)@.wf(),
            0 <= current_time <= MAX_TIME,
        ensures
            final(self)@.wf(),
            r == old(self)@.has_scheduled_host_callback,
            r ==> final(self)@ == (SchedulerView { start_time: current_time, ..old(self)@ }),
            !r ==> final(self)@ == (SchedulerView { is_message_loop_running: false, ..old(self)@ }),
    {
        if self.has_scheduled_host_callback {
            self.start_time = current_time;
            true
        } else {
            self.is_message_loop_running = false;
            false
        }
    }

    /// Ends a slice of work: with more work left the message loop goes on,
    /// otherwise it stops and the host callback is cleared.
    pub fn end_perform_work(&mut self, has_more_work: bool) -> (r: Vec<HostAction>)
        requires
            old(self)@.wf(),
        ensures
            final(self)@.wf(),
            has_more_work ==> final(self)@ == old(self)@
                && r@ == seq![HostAction::SchedulePerformWorkUntilDeadline],
            !has_more_work ==> final(self)@ == (SchedulerView {
                is_message_loop_running: false,
                has_scheduled_host_callback: false,
                ..old(self)@
            }) && r@ == Seq::<HostAction>::empty(),
    {
        if has_more_work {
            vec![HostAction::SchedulePerformWorkUntilDeadline]
        } else {
            self.is_message_loop_running = false;
            self.has_scheduled_host_callback = false;
            Vec::new()
        }
    }

    /// Starts flushing work: the host callback is no longer pending, a pending
    /// host timeout is cancelled, and work is in progress. Returns the
    /// priority level to restore in `finish_flush_work`.
    pub fn begin_flush_work(&mut self) -> (r: (Priority, Vec<HostAction>))
        requires
            old(self)@.wf(),
        ensures
            final(self)@.wf(),
            r.0 == old(self)@.current_priority_level,
            final(self)@ == (SchedulerView {
                is_host_callback_scheduled: false,
                is_host_timeout_scheduled: false,
                is_performing_work: true,
                ..old(self)@
            }),
            r.1@ == (if old(self)@.is_host_timeout_scheduled {
                seq![HostAction::CancelHostTimeout]
            } else {
                Seq::<HostAction>::empty()
            }),
    {
        self.is_host_callback_scheduled = false;
        let mut actions: Vec<HostAction> = Vec::new();
        if self.is_host_timeout_scheduled {
            self.is_host_timeout_scheduled = false;
            actions.push(HostAction::CancelHostTimeout);
        }
        self.is_performing_work = true;
        (self.current_priority_level, actions)
    }

    /// Ends flushing work at `current_time`: returns whether tasks are left,
    /// and, when none is but a delayed task waits, asks for a timeout until it
    /// starts. Work is no longer in progress and `previous_priority_level`
    /// is back.
    pub fn finish_flush_work(&mut self, current_time: i64, previous_priority_level: Priority) -> (r: (
        bool,
        Vec<HostAction>,
    ))
        requires
            old(self)@.wf(),
            0 <= current_time <= MAX_TIME,
        ensures
            final(self)@.wf(),
            final(self)@ == (SchedulerView {
                current_task: None,
                current_priority_level: previous_priority_level,
                is_performing_work: false,
                ..old(self)@
            }),
            r.0 == (old(self)@.task_queue.len() > 0),
            r.1@ == (if old(self)@.task_queue.len() == 0 && old(self)@.timer_queue.len() > 0 {
                seq![HostAction::RequestHostTimeout((old(self)@.timer_queue[0].0 - current_time) as i64)]
            } else {
                Seq::<HostAction>::empty()
            }),
    {
        let mut actions: Vec<HostAction> = Vec::new();
        let has_more = !is_empty(&self.task_queue);
        if !has_more {
            let first = match peek(&self.timer_queue) {
                None => None,
                Some(k) => Some(*k),
            };
            if let Some(first_timer) = first {
                proof {
                    assert(time_ok(self@.timer_queue[0].0));
                }
                actions.push(HostAction::RequestHostTimeout(first_timer.0 - current_time));
            }
        }
        self.current_task = None;
        self.current_priority_level = previous_priority_level;
        self.is_performing_work = false;
        (has_more, actions)
    }

    /// The index of the record of the task with this id.
    fn find_task(&self, id: u32) -> (r: Option<usize>)
        requires
            self@.wf(),
        ensures
            r matches Some(i) ==> i < self@.tasks.len() && self@.tasks[i as int].id == id
                && self@.record(id) == self@.tasks[i as int],
            r is None ==> !self@.has_record(id),
    {
        let mut i: usize = 0;
        while i < self.tasks.len()
            invariant
                self@.wf(),
                i <= self.tasks@.len(),
                forall|j: int| 0 <= j < i ==> self.tasks@[j].id != id,
            decreases self.tasks@.len() - i,
        {
            if self.tasks[i].id == id {
                proof {
                    let k = choose|k: int| 0 <= k < self@.tasks.len() && self@.tasks[k].id == id;
                    assert(self@.tasks[i as int].id == id);
                    if k != i {
                        if k < i {
                            assert(self@.tasks[k].id != self@.tasks[i as int].id);
                        } else {
                            assert(self@.tasks[i as int].id != self@.tasks[k].id);
                        }
                    }
                }
                return Some(i);
            }
            i = i + 1;
        }
        None
    }
}

} // verus!
