use react_wasm::commit_work::{commit_passive_effect, get_host_sibling, PassiveKind};
use react_wasm::complete_work::FiberTree;
use react_wasm::fiber_context::{prepare_to_read_context, read_context, ContextDependencies};
use react_wasm::flags::Flags;
use react_wasm::lanes::Lane;
use react_wasm::work_loop::{
    perform_sync_work_on_root, sync_work_outcome, work_loop_sync, RootExitStatus, WorkEvent,
};
use react_wasm::work_tags::WorkTag;

fn leaf(id: u32) -> FiberTree {
    FiberTree {
        id,
        tag: WorkTag::HostText,
        type_handle: 0,
        state_node: None,
        pending_props: 0,
        memoized_props: 0,
        flags: Flags::no_flags(),
        subtree_flags: Flags::no_flags(),
        lanes: Lane::no_lane(),
        child_lanes: Lane::no_lane(),
        alternate: None,
        children: vec![],
    }
}

#[test]
fn work_loop_begins_down_and_completes_up() {
    let mut div = leaf(2);
    div.tag = WorkTag::HostComponent;
    div.children = vec![leaf(3), leaf(4)];
    let mut root = leaf(1);
    root.tag = WorkTag::HostRoot;
    root.children = vec![div, leaf(5)];
    let events = work_loop_sync(&root, Lane::sync_lane());
    assert_eq!(
        events,
        vec![
            WorkEvent::Begin(1),
            WorkEvent::Begin(2),
            WorkEvent::Begin(3),
            WorkEvent::Complete(3),
            WorkEvent::Begin(4),
            WorkEvent::Complete(4),
            WorkEvent::Complete(2),
            WorkEvent::Begin(5),
            WorkEvent::Complete(5),
            WorkEvent::Complete(1),
        ]
    );
}

#[test]
fn work_loop_skips_a_subtree_without_work() {
    let mut div = leaf(2);
    div.tag = WorkTag::HostComponent;
    div.alternate = Some(12);
    div.pending_props = 7;
    div.memoized_props = 7;
    div.children = vec![leaf(3)];
    let mut busy = leaf(4);
    busy.tag = WorkTag::HostComponent;
    busy.alternate = Some(14);
    busy.pending_props = 8;
    busy.memoized_props = 8;
    busy.child_lanes = Lane::sync_lane();
    busy.children = vec![leaf(5)];
    let mut root = leaf(1);
    root.tag = WorkTag::HostRoot;
    root.children = vec![div, busy];
    let events = work_loop_sync(&root, Lane::sync_lane());
    assert_eq!(
        events,
        vec![
            WorkEvent::Begin(1),
            WorkEvent::Begin(2),
            WorkEvent::Complete(2),
            WorkEvent::Begin(4),
            WorkEvent::Begin(5),
            WorkEvent::Complete(5),
            WorkEvent::Complete(4),
            WorkEvent::Complete(1),
        ]
    );
}

#[test]
fn sync_render_decisions() {
    assert!(perform_sync_work_on_root(Lane::sync_lane()));
    assert!(!perform_sync_work_on_root(Lane::default_lane()));
    assert!(!perform_sync_work_on_root(Lane::sync_lane().union(&Lane::default_lane())));
    assert!(sync_work_outcome(RootExitStatus::Completed));
    assert!(!sync_work_outcome(RootExitStatus::DidNotComplete));
}

#[test]
fn passive_effects_queue() {
    let fc = WorkTag::FunctionComponent;
    assert!(commit_passive_effect(fc, Flags::no_flags(), PassiveKind::Unmount, true));
    assert!(!commit_passive_effect(fc, Flags::no_flags(), PassiveKind::Update, true));
    assert!(commit_passive_effect(fc, Flags::passive_effect(), PassiveKind::Update, true));
    assert!(!commit_passive_effect(fc, Flags::passive_effect(), PassiveKind::Update, false));
    assert!(!commit_passive_effect(WorkTag::HostComponent, Flags::passive_effect(), PassiveKind::Unmount, true));
}

#[test]
fn context_reads() {
    let mut deps: Option<ContextDependencies> = None;
    assert!(!prepare_to_read_context(&mut deps, Lane::sync_lane()));
    read_context(&mut deps, true, 7);
    read_context(&mut deps, false, 8);
    assert_eq!(deps.as_ref().unwrap().contexts, vec![7, 8]);
    assert_eq!(deps.as_ref().unwrap().lanes, Lane::no_lane());
    deps.as_mut().unwrap().lanes = Lane::sync_lane();
    assert!(prepare_to_read_context(&mut deps, Lane::sync_lane()));
    assert!(deps.as_ref().unwrap().contexts.is_empty());
    assert!(!prepare_to_read_context(&mut deps, Lane::sync_lane()));
    read_context(&mut deps, true, 9);
    assert!(!prepare_to_read_context(&mut deps, Lane::default_lane()));
}

#[test]
fn element_fiber_kinds() {
    assert_eq!(react_wasm::work_tags::create_fiber_from_element(true), WorkTag::HostComponent);
    assert_eq!(react_wasm::work_tags::create_fiber_from_element(false), WorkTag::FunctionComponent);
}

#[test]
fn host_sibling_is_found_below_a_component_sibling() {
    // <A/><B/> where B renders <div/>: A's host sibling is that div.
    let mut div = leaf(3);
    div.tag = WorkTag::HostComponent;
    div.state_node = Some(30);
    let mut b = leaf(2);
    b.tag = WorkTag::FunctionComponent;
    b.children = vec![div];
    assert_eq!(get_host_sibling(&vec![vec![b]]), Some(30));
}

#[test]
fn host_sibling_skips_placed_fibers_and_climbs() {
    let mut moving = leaf(4);
    moving.tag = WorkTag::HostComponent;
    moving.state_node = Some(40);
    moving.flags = Flags::placement();
    let mut empty = leaf(5);
    empty.tag = WorkTag::FunctionComponent;
    let mut staying = leaf(6);
    staying.tag = WorkTag::HostText;
    staying.state_node = Some(60);
    assert_eq!(get_host_sibling(&vec![vec![moving, empty], vec![staying]]), Some(60));
    assert_eq!(get_host_sibling(&vec![vec![], vec![]]), None);
}
