use react_wasm::lanes::{merge_lanes, Lane};
use react_wasm::update_queue::{
    basic_state_reducer, create_update, create_update_queue, dispatch_set_state, enqueue_update,
    process_update_queue, Action, FiberLanes, Update,
};

fn value_update(v: u64, lane: Lane) -> Update {
    create_update(Action::Value(v), lane)
}

#[test]
fn create_update_has_no_eager_state() {
    let u = create_update(Action::Value(3), Lane::sync_lane());
    assert_eq!(u.action, Some(Action::Value(3)));
    assert_eq!(u.lane, Lane::sync_lane());
    assert!(!u.has_eager_state);
    assert_eq!(u.eager_state, None);
}

#[test]
fn enqueue_appends_and_marks_lanes() {
    let mut queue = create_update_queue();
    assert!(queue.shared.pending.is_empty());
    assert_eq!(queue.dispatch, None);
    assert_eq!(queue.last_rendered_state, None);
    let mut fiber = FiberLanes { lanes: Lane::no_lane(), alternate_lanes: Some(Lane::idle_lane()) };
    enqueue_update(&mut queue, value_update(1, Lane::sync_lane()), &mut fiber, Lane::sync_lane());
    enqueue_update(&mut queue, value_update(2, Lane::default_lane()), &mut fiber, Lane::default_lane());
    assert_eq!(queue.shared.pending.len(), 2);
    assert_eq!(queue.shared.pending[1].action, Some(Action::Value(2)));
    assert_eq!(fiber.lanes.bits(), 5);
    assert_eq!(fiber.alternate_lanes.unwrap().bits(), 0x4000_0005);
}

#[test]
fn reducer_sets_value_or_calls_function() {
    let call = |f: u64, s: Option<u64>| Some(f + s.unwrap());
    assert_eq!(basic_state_reducer(10, Action::Value(4), &call), Some(4));
    assert_eq!(basic_state_reducer(10, Action::Function(5), &call), Some(15));
}

#[test]
fn processing_all_lanes_applies_every_update() {
    let call = |f: u64, s: Option<u64>| f * 100 + s.unwrap_or(0);
    let pending = vec![
        value_update(1, Lane::sync_lane()),
        value_update(2, Lane::sync_lane()),
        create_update(Action::Function(7), Lane::sync_lane()),
    ];
    let r = process_update_queue(Some(0), &pending, Lane::sync_lane(), &call);
    assert_eq!(r.memoized_state, Some(700));
    assert_eq!(r.base_state, Some(700));
    assert!(r.base_queue.is_empty());
    assert_eq!(r.skipped_lanes, Lane::no_lane());
}

#[test]
fn skipped_update_leaves_the_last_applied_one_queued() {
    let call = |f: u64, s: Option<u64>| f + s.unwrap_or(0);
    let mut eager = value_update(3, Lane::sync_lane());
    eager.has_eager_state = true;
    eager.eager_state = Some(33);
    let pending = vec![
        value_update(1, Lane::sync_lane()),
        value_update(2, Lane::default_lane()),
        eager,
    ];
    let r = process_update_queue(Some(0), &pending, Lane::sync_lane(), &call);
    assert_eq!(r.memoized_state, Some(33));
    assert_eq!(r.base_state, Some(0));
    assert_eq!(r.base_queue.len(), 1);
    assert_eq!(r.base_queue[0], value_update(3, Lane::sync_lane()));
    assert_eq!(r.skipped_lanes, Lane::default_lane());
}

#[test]
fn skipped_updates_at_the_end_leave_the_first_skipped_queued() {
    let call = |f: u64, s: Option<u64>| f + s.unwrap_or(0);
    let pending = vec![
        value_update(1, Lane::sync_lane()),
        value_update(2, Lane::default_lane()),
        value_update(3, Lane::default_lane()),
    ];
    let r = process_update_queue(Some(0), &pending, Lane::sync_lane(), &call);
    assert_eq!(r.memoized_state, Some(1));
    assert_eq!(r.base_state, Some(0));
    assert_eq!(r.base_queue, vec![value_update(2, Lane::default_lane())]);
    assert_eq!(r.skipped_lanes, Lane::default_lane());
    assert_eq!(r.skipped_updates, vec![value_update(2, Lane::default_lane()), value_update(3, Lane::default_lane())]);
}

#[test]
fn empty_queue_keeps_the_state() {
    let call = |f: u64, _s: Option<u64>| f;
    let r = process_update_queue(Some(5), &Vec::new(), Lane::sync_lane(), &call);
    assert_eq!(r.memoized_state, Some(5));
    assert_eq!(r.base_state, Some(5));
}

#[test]
fn dispatch_bails_out_on_unchanged_state() {
    let call = |f: u64, s: Option<u64>| Some(f + s.unwrap());
    let mut fiber = FiberLanes { lanes: Lane::no_lane(), alternate_lanes: None };
    let mut queue = create_update_queue();
    queue.last_rendered_state = Some(8);
    let schedule = dispatch_set_state(&mut fiber, &mut queue, Action::Value(8), Lane::sync_lane(), &call);
    assert!(!schedule);
    assert_eq!(fiber.lanes, Lane::no_lane());
    assert_eq!(queue.shared.pending.len(), 1);
    assert!(queue.shared.pending[0].has_eager_state);
    assert_eq!(queue.shared.pending[0].eager_state, Some(8));
}

#[test]
fn dispatch_schedules_on_changed_state() {
    let call = |f: u64, s: Option<u64>| Some(f + s.unwrap());
    let mut fiber = FiberLanes { lanes: Lane::no_lane(), alternate_lanes: Some(Lane::no_lane()) };
    let mut queue = create_update_queue();
    queue.last_rendered_state = Some(8);
    let schedule = dispatch_set_state(&mut fiber, &mut queue, Action::Function(1), Lane::sync_lane(), &call);
    assert!(schedule);
    assert_eq!(fiber.lanes, Lane::sync_lane());
    assert_eq!(fiber.alternate_lanes, Some(Lane::sync_lane()));
    assert_eq!(queue.shared.pending[0].eager_state, Some(9));
}

#[test]
fn dispatch_on_busy_fiber_computes_nothing() {
    let call = |_f: u64, _s: Option<u64>| -> Option<u64> { panic!("not called") };
    let mut fiber = FiberLanes { lanes: Lane::default_lane(), alternate_lanes: None };
    let mut queue = create_update_queue();
    let schedule = dispatch_set_state(&mut fiber, &mut queue, Action::Function(1), Lane::sync_lane(), &call);
    assert!(schedule);
    assert_eq!(fiber.lanes, merge_lanes(Lane::default_lane(), Lane::sync_lane()));
    assert!(!queue.shared.pending[0].has_eager_state);
}

#[test]
fn dispatch_with_throwing_function_has_no_eager_state() {
    let call = |_f: u64, _s: Option<u64>| -> Option<u64> { None };
    let mut fiber = FiberLanes { lanes: Lane::no_lane(), alternate_lanes: None };
    let mut queue = create_update_queue();
    queue.last_rendered_state = Some(1);
    let schedule = dispatch_set_state(&mut fiber, &mut queue, Action::Function(1), Lane::default_lane(), &call);
    assert!(schedule);
    assert!(!queue.shared.pending[0].has_eager_state);
    assert_eq!(fiber.lanes, Lane::default_lane());
}
