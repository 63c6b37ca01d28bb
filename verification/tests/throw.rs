use react_wasm::fiber_throw::{
    attach_ping_listener, handle_throw, ping, throw_exception, unwind_unit_of_work, PingCache,
    SuspendedReason, UnwindFiber,
};
use react_wasm::flags::Flags;
use react_wasm::lanes::Lane;
use react_wasm::scheduler::Scheduler;
use react_wasm::work_loop::{commit_root, flush_passive_effects};
use react_wasm::work_tags::WorkTag;
use react_wasm::suspense_context::SuspenseHandlerStack;
use react_wasm::fiber_context::ContextStack;

#[test]
fn thrown_values() {
    assert_eq!(handle_throw(true, false), SuspendedReason::OnData);
    assert_eq!(handle_throw(false, true), SuspendedReason::OnDeprecatedThrowPromise);
    assert_eq!(handle_throw(false, false), SuspendedReason::OnError);
}

#[test]
fn ping_listeners_attach_once_per_lane() {
    let mut cache = PingCache::new();
    assert!(attach_ping_listener(&mut cache, 1, Lane::sync_lane()));
    assert!(!attach_ping_listener(&mut cache, 1, Lane::sync_lane()));
    assert!(attach_ping_listener(&mut cache, 1, Lane::default_lane()));
    assert!(attach_ping_listener(&mut cache, 2, Lane::sync_lane()));
    ping(&mut cache, 1);
    assert!(cache.has_listener(2, Lane::sync_lane()));
    assert!(!cache.has_listener(1, Lane::sync_lane()));
    assert!(!cache.has_listener(1, Lane::default_lane()));
    assert!(attach_ping_listener(&mut cache, 1, Lane::sync_lane()));
}

#[test]
fn throwing_a_thenable_marks_the_boundary() {
    let mut cache = PingCache::new();
    assert_eq!(throw_exception(true, &vec![3, 4], &mut cache, 9, Lane::sync_lane()), (Some(4), true));
    assert_eq!(throw_exception(true, &vec![], &mut cache, 9, Lane::sync_lane()), (None, false));
    assert_eq!(throw_exception(false, &vec![3], &mut cache, 10, Lane::sync_lane()), (None, false));
    assert!(cache.has_listener(9, Lane::sync_lane()));
    assert!(!cache.has_listener(10, Lane::sync_lane()));
}

#[test]
fn unwinding_stops_at_capturing_boundary() {
    let capture = Flags::should_capture().union(&Flags::placement()).union(&Flags::ref_flag());
    let path = vec![
        UnwindFiber { tag: WorkTag::FunctionComponent, flags: Flags::should_capture() },
        UnwindFiber { tag: WorkTag::SuspenseComponent, flags: Flags::should_capture().union(&Flags::did_capture()) },
        UnwindFiber { tag: WorkTag::SuspenseComponent, flags: capture },
        UnwindFiber { tag: WorkTag::HostRoot, flags: Flags::no_flags() },
    ];
    let mut handlers = SuspenseHandlerStack::new();
    for h in [1, 2, 3] {
        handlers.push_suspense_handler(h);
    }
    let mut contexts = ContextStack::new();
    contexts.push_provider(Some(5), Some(6));
    let (found, restored) = unwind_unit_of_work(&path, &mut handlers, &mut contexts);
    let (i, flags) = found.unwrap();
    assert_eq!(i, 2);
    assert_eq!(flags.bits(), 0x51);
    assert!(restored.is_empty());
    assert_eq!(handlers.handlers, vec![1]);
    let provider_path = vec![
        UnwindFiber { tag: WorkTag::ContextProvider, flags: Flags::no_flags() },
        UnwindFiber { tag: WorkTag::SuspenseComponent, flags: Flags::no_flags() },
    ];
    let (found, restored) = unwind_unit_of_work(&provider_path, &mut handlers, &mut contexts);
    assert_eq!(found, None);
    assert_eq!(restored, vec![Some(5)]);
    assert!(handlers.handlers.is_empty());
}

#[test]
fn commit_plans() {
    let p = commit_root(Flags::no_flags(), Flags::passive_effect(), false);
    assert!(p.schedule_passive_flush);
    assert!(p.run_mutation_and_layout);
    let p = commit_root(Flags::ref_flag(), Flags::passive_effect(), false);
    assert!(!p.run_mutation_and_layout);
    let p = commit_root(Flags::no_flags(), Flags::passive_effect(), true);
    assert!(!p.schedule_passive_flush);
    let p = commit_root(Flags::placement(), Flags::no_flags(), false);
    assert!(!p.schedule_passive_flush);
    assert!(p.run_mutation_and_layout);
    assert!(flush_passive_effects(1, 0));
    assert!(flush_passive_effects(0, 2));
    assert!(!flush_passive_effects(0, 0));
}

#[test]
fn fresh_scheduler_can_schedule() {
    assert!(Scheduler::new().can_schedule());
}
