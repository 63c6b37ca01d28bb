use react_wasm::scheduler::{get_priority_timeout, HostAction, Priority, Scheduler, WorkStep};

fn run_all(s: &mut Scheduler, now: i64) -> Vec<(u32, u64, bool)> {
    let mut ran = Vec::new();
    assert!(s.begin_perform_work(now));
    let (previous, _) = s.begin_flush_work();
    s.advance_timers(now);
    loop {
        match s.work_loop_next(now, true, false) {
            WorkStep::Run { task_id, callback, did_timeout } => {
                ran.push((task_id, callback, did_timeout));
                s.complete_task(task_id, None);
                s.advance_timers(now);
            }
            WorkStep::Yield | WorkStep::Idle => break,
        }
    }
    let (more, _) = s.finish_flush_work(now, previous);
    s.end_perform_work(more);
    ran
}

#[test]
fn priority_timeouts() {
    assert_eq!(get_priority_timeout(Priority::ImmediatePriority), -1);
    assert_eq!(get_priority_timeout(Priority::UserBlockingPriority), 250);
    assert_eq!(get_priority_timeout(Priority::NormalPriority), 5000);
    assert_eq!(get_priority_timeout(Priority::LowPriority), 10000);
    assert_eq!(get_priority_timeout(Priority::IdlePriority), 1073741823);
}

#[test]
fn tasks_of_one_priority_run_in_scheduling_order() {
    let mut s = Scheduler::new();
    assert_eq!(s.unstable_get_current_priority_level(), Priority::NormalPriority);
    let (t1, a1) = s.unstable_schedule_callback(Priority::NormalPriority, 100, 0, 0);
    let (t2, a2) = s.unstable_schedule_callback(Priority::NormalPriority, 200, 0, 0);
    let (t3, a3) = s.unstable_schedule_callback(Priority::NormalPriority, 300, 0, 0);
    assert_eq!((t1.id, t2.id, t3.id), (1, 2, 3));
    assert_eq!(t1.callback, Some(100));
    assert_eq!(t1.start_time, 0);
    assert_eq!(t1.expiration_time, 5000);
    assert_eq!(a1, vec![HostAction::SchedulePerformWorkUntilDeadline]);
    assert!(a2.is_empty());
    assert!(a3.is_empty());
    let ran = run_all(&mut s, 1);
    assert_eq!(ran, vec![(1, 100, false), (2, 200, false), (3, 300, false)]);
    assert!(!s.begin_perform_work(2));
    assert_eq!(s.work_loop_next(2, true, false), WorkStep::Idle);
}

#[test]
fn higher_priority_runs_first() {
    let mut s = Scheduler::new();
    s.unstable_schedule_callback(Priority::NormalPriority, 10, 0, 0);
    s.unstable_schedule_callback(Priority::UserBlockingPriority, 20, 0, 0);
    s.unstable_schedule_callback(Priority::ImmediatePriority, 30, 0, 0);
    let ran = run_all(&mut s, 1);
    let order: Vec<u64> = ran.iter().map(|r| r.1).collect();
    assert_eq!(order, vec![30, 20, 10]);
    assert!(ran[0].2);
}

#[test]
fn cancelled_task_never_runs() {
    let mut s = Scheduler::new();
    s.unstable_schedule_callback(Priority::NormalPriority, 1, 0, 0);
    let (t2, _) = s.unstable_schedule_callback(Priority::NormalPriority, 2, 0, 0);
    s.unstable_schedule_callback(Priority::NormalPriority, 3, 0, 0);
    s.unstable_cancel_callback(t2);
    let order: Vec<u64> = run_all(&mut s, 1).iter().map(|r| r.1).collect();
    assert_eq!(order, vec![1, 3]);
}

#[test]
fn delayed_task_waits_for_its_timer() {
    let mut s = Scheduler::new();
    let (t, actions) = s.unstable_schedule_callback(Priority::NormalPriority, 7, 100, 0);
    assert_eq!(t.start_time, 100);
    assert_eq!(t.expiration_time, 5100);
    assert_eq!(actions, vec![HostAction::RequestHostTimeout(100)]);
    s.advance_timers(50);
    let actions = s.handle_timeout(50);
    assert_eq!(actions, vec![HostAction::RequestHostTimeout(50)]);
    let actions = s.handle_timeout(100);
    assert_eq!(actions, vec![HostAction::SchedulePerformWorkUntilDeadline]);
    assert_eq!(run_all(&mut s, 100), vec![(1, 7, false)]);
}

#[test]
fn second_delayed_task_cancels_the_timeout() {
    let mut s = Scheduler::new();
    let (_, a1) = s.unstable_schedule_callback(Priority::NormalPriority, 1, 200, 0);
    assert_eq!(a1, vec![HostAction::RequestHostTimeout(200)]);
    let (_, a2) = s.unstable_schedule_callback(Priority::NormalPriority, 2, 100, 0);
    assert_eq!(a2, vec![HostAction::CancelHostTimeout, HostAction::RequestHostTimeout(100)]);
    let (_, a3) = s.unstable_schedule_callback(Priority::NormalPriority, 3, 300, 0);
    assert!(a3.is_empty());
}

#[test]
fn continuation_keeps_the_task() {
    let mut s = Scheduler::new();
    s.unstable_schedule_callback(Priority::NormalPriority, 5, 0, 0);
    assert!(s.begin_perform_work(1));
    let (previous, _) = s.begin_flush_work();
    match s.work_loop_next(1, true, false) {
        WorkStep::Run { task_id, callback, .. } => {
            assert_eq!((task_id, callback), (1, 5));
            s.complete_task(task_id, Some(6));
        }
        other => panic!("unexpected {:?}", other),
    }
    match s.work_loop_next(1, true, false) {
        WorkStep::Run { task_id, callback, .. } => {
            assert_eq!((task_id, callback), (1, 6));
            s.complete_task(task_id, None);
        }
        other => panic!("unexpected {:?}", other),
    }
    assert_eq!(s.work_loop_next(1, true, false), WorkStep::Idle);
    let (more, actions) = s.finish_flush_work(1, previous);
    assert!(!more);
    assert!(actions.is_empty());
}

#[test]
fn work_loop_yields_before_unexpired_task() {
    let mut s = Scheduler::new();
    s.unstable_schedule_callback(Priority::NormalPriority, 5, 0, 0);
    assert!(s.begin_perform_work(10));
    let (previous, _) = s.begin_flush_work();
    assert_eq!(s.work_loop_next(10, true, true), WorkStep::Yield);
    assert_eq!(s.work_loop_next(10, false, false), WorkStep::Yield);
    let (more, _) = s.finish_flush_work(10, previous);
    assert!(more);
    assert_eq!(s.end_perform_work(more), vec![HostAction::SchedulePerformWorkUntilDeadline]);
}

#[test]
fn should_yield_after_a_frame() {
    let mut s = Scheduler::new();
    s.unstable_schedule_callback(Priority::NormalPriority, 5, 0, 0);
    assert!(s.begin_perform_work(10));
    assert!(!s.unstable_should_yield_to_host(14));
    assert!(s.unstable_should_yield_to_host(15));
}

#[test]
fn perform_work_without_callback_stops_the_loop() {
    let mut s = Scheduler::new();
    assert!(!s.begin_perform_work(0));
}

#[test]
fn run_with_priority_restores() {
    let mut s = Scheduler::new();
    let previous = s.unstable_run_with_priority(Priority::UserBlockingPriority);
    assert_eq!(previous, Priority::NormalPriority);
    assert_eq!(s.unstable_get_current_priority_level(), Priority::UserBlockingPriority);
    s.restore_priority_level(previous);
    assert_eq!(s.unstable_get_current_priority_level(), Priority::NormalPriority);
}

#[test]
fn no_delay_schedules_at_once() {
    let mut s = Scheduler::new();
    let (t, actions) = s.unstable_schedule_callback_no_delay(Priority::ImmediatePriority, 9, 3);
    assert_eq!(t.start_time, 3);
    assert_eq!(t.expiration_time, 2);
    assert_eq!(actions, vec![HostAction::SchedulePerformWorkUntilDeadline]);
}

#[test]
fn running_with_a_priority_sets_and_restores_it() {
    let mut s = Scheduler::new();
    let previous = s.set_current_priority_level(Priority::UserBlockingPriority);
    assert_eq!(previous, Priority::NormalPriority);
    assert_eq!(s.unstable_get_current_priority_level(), Priority::UserBlockingPriority);
    assert_eq!(s.set_current_priority_level(previous), Priority::UserBlockingPriority);
    assert_eq!(s.unstable_get_current_priority_level(), Priority::NormalPriority);
}
