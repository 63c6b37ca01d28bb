use react_wasm::batch_config::ReactCurrentBatchConfig;
use react_wasm::fiber_context::{propagate_context_change, ContextFiber, ContextStack};
use react_wasm::lanes::Lane;
use react_wasm::suspense_context::SuspenseHandlerStack;
use react_wasm::sync_task_queue::SyncTaskQueue;
use react_wasm::thenable::{track_used_thenable, SuspenseException};
use react_wasm::work_tags::WorkTag;

#[test]
fn provider_stack_restores_values() {
    let mut stack = ContextStack::new();
    assert_eq!(stack.push_provider(Some(1), Some(10)), Some(10));
    assert_eq!(stack.push_provider(Some(10), Some(20)), Some(20));
    assert_eq!(stack.pop_provider(), Some(10));
    assert_eq!(stack.pop_provider(), Some(1));
    assert_eq!(stack.pop_provider(), None);
    assert!(stack.stack.is_empty());
}

#[test]
fn two_contexts_get_their_values_back() {
    // Context values by context: a = 1, b = 2.
    let mut a = Some(1);
    let mut b = Some(2);
    let mut stack = ContextStack::new();
    a = stack.push_provider(a, Some(11));
    b = stack.push_provider(b, Some(22));
    a = stack.push_provider(a, Some(111));
    assert_eq!((a, b), (Some(111), Some(22)));
    a = stack.pop_provider();
    assert_eq!(a, Some(11));
    b = stack.pop_provider();
    assert_eq!(b, Some(2));
    a = stack.pop_provider();
    assert_eq!((a, b), (Some(1), Some(2)));
    assert!(stack.stack.is_empty());
}

#[test]
fn suspense_handlers_nest() {
    let mut s = SuspenseHandlerStack::new();
    s.push_suspense_handler(4);
    s.push_suspense_handler(9);
    assert_eq!(s.get_suspense_handler(), 9);
    s.pop_suspense_handler();
    assert_eq!(s.get_suspense_handler(), 4);
    s.pop_suspense_handler();
    s.pop_suspense_handler();
    assert!(s.handlers.is_empty());
}

#[test]
fn sync_queue_flushes_once() {
    let mut q = SyncTaskQueue::new();
    assert_eq!(q.begin_flush_sync_callbacks(), None);
    q.schedule_sync_callback(1);
    q.schedule_sync_callback(2);
    assert_eq!(q.begin_flush_sync_callbacks(), Some(vec![1, 2]));
    assert_eq!(q.begin_flush_sync_callbacks(), None);
    q.end_flush_sync_callbacks();
    assert!(q.queue.is_empty());
    assert!(!q.is_flushing);
    assert_eq!(q.begin_flush_sync_callbacks(), None);
}

#[test]
fn thenables_suspend() {
    assert_eq!(track_used_thenable(5), Err(SuspenseException));
    assert!(SuspenseException.message().starts_with("It's not a true mistake"));
    assert_eq!(ReactCurrentBatchConfig::new().transition, 0);
}

fn fiber(tag: WorkTag, type_handle: u64, deps: Option<Vec<u64>>, children: Vec<ContextFiber>) -> ContextFiber {
    ContextFiber {
        tag,
        type_handle,
        lanes: Lane::no_lane(),
        child_lanes: Lane::no_lane(),
        alternate_lanes: Some((Lane::no_lane(), Lane::no_lane())),
        dependencies: deps,
        dependency_lanes: Lane::no_lane(),
        children,
    }
}

#[test]
fn context_change_reaches_readers() {
    let reader = fiber(WorkTag::FunctionComponent, 50, Some(vec![7]), vec![]);
    let other = fiber(WorkTag::FunctionComponent, 51, Some(vec![8]), vec![]);
    let hidden_reader = fiber(WorkTag::FunctionComponent, 52, Some(vec![7]), vec![]);
    let inner_provider = fiber(WorkTag::ContextProvider, 30, None, vec![hidden_reader]);
    let div = fiber(WorkTag::HostComponent, 60, None, vec![reader, other]);
    let provider = fiber(WorkTag::ContextProvider, 30, None, vec![div, inner_provider]);
    let r = propagate_context_change(provider, 7, Lane::sync_lane());
    assert_eq!(r.child_lanes, Lane::sync_lane());
    assert_eq!(r.alternate_lanes.unwrap().1, Lane::sync_lane());
    assert_eq!(r.lanes, Lane::no_lane());
    let div = &r.children[0];
    assert_eq!(div.child_lanes, Lane::sync_lane());
    assert_eq!(div.lanes, Lane::no_lane());
    assert_eq!(div.children[0].lanes, Lane::sync_lane());
    assert_eq!(div.children[0].dependency_lanes, Lane::sync_lane());
    assert_eq!(div.children[0].alternate_lanes.unwrap().0, Lane::sync_lane());
    assert_eq!(div.children[1].lanes, Lane::no_lane());
    let inner = &r.children[1];
    assert_eq!(inner.child_lanes, Lane::no_lane());
    assert_eq!(inner.children[0].lanes, Lane::no_lane());
}
