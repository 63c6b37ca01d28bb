use react_wasm::begin_work::{
    bailout_hook, bailout_on_already_finished_work, begin_step, begin_work, clone_child_fibers, create_work_in_progress, mark_ref, update_context_provider,
    update_function_component, update_host_root, update_memo_component, BeginStep, BeginWorkInput, HostRootNext,
    ProviderStep,
};
use react_wasm::commit_work::{
    commit_deletion, commit_effects, commit_hook_effect_list, commit_layout_effects_on_fiber,
    commit_mutation_effects_on_fiber, commit_nested_unmounts, get_host_parent,
    insert_or_append_placement_node_into_container,
};
use react_wasm::complete_work::{
    append_all_children, bubble_properties, complete_step, complete_work, ChildSummary, CompleteAction,
    CompleteInput, FiberTree,
};
use react_wasm::flags::Flags;
use react_wasm::lanes::Lane;
use react_wasm::update_queue::{create_update, create_update_queue, Action};
use react_wasm::work_loop::{
    concurrent_work_outcome, ensure_root_is_scheduled, mark_update_lane_from_fiber_to_root,
    render_root_exit_status, ConcurrentOutcome, PathNode, RootExitStatus, RootSchedule,
};
use react_wasm::scheduler::Priority;
use react_wasm::work_tags::WorkTag;
use react_wasm::child_fiber::{ChildSource, NewChildren, OldChild, PlacedChild};

fn node(id: u32, tag: WorkTag, state_node: Option<u64>, flags: u16, subtree: u16, children: Vec<FiberTree>) -> FiberTree {
    FiberTree {
        id,
        tag,
        type_handle: 0,
        state_node,
        pending_props: 0,
        memoized_props: 0,
        flags: Flags::from_bits_truncate(flags),
        subtree_flags: Flags::from_bits_truncate(subtree),
        lanes: Lane::no_lane(),
        child_lanes: Lane::no_lane(),
        alternate: None,
        children,
    }
}

fn sample_tree() -> FiberTree {
    // root(1) -> [ fc(2) -> [ div(3) -> [text(4)] ], text(5), fragment(6) -> [ span(7) ] ]
    let text4 = node(4, WorkTag::HostText, Some(40), 0x2, 0, vec![]);
    let div3 = node(3, WorkTag::HostComponent, Some(30), 0x1, 0x2, vec![text4]);
    let fc2 = node(2, WorkTag::FunctionComponent, None, 0x8, 0x3, vec![div3]);
    let text5 = node(5, WorkTag::HostText, Some(50), 0, 0, vec![]);
    let span7 = node(7, WorkTag::HostComponent, Some(70), 0, 0, vec![]);
    let frag6 = node(6, WorkTag::Fragment, None, 0, 0, vec![span7]);
    node(1, WorkTag::HostRoot, Some(10), 0, 0xB, vec![fc2, text5, frag6])
}

#[test]
fn host_children_stop_at_host_nodes() {
    let tree = sample_tree();
    assert_eq!(append_all_children(&tree), vec![Some(30), Some(50), Some(70)]);
    assert_eq!(insert_or_append_placement_node_into_container(&tree.children[0]), vec![Some(30)]);
    assert_eq!(insert_or_append_placement_node_into_container(&tree.children[1]), vec![Some(50)]);
    assert_eq!(insert_or_append_placement_node_into_container(&tree.children[2]), vec![Some(70)]);
}

#[test]
fn commit_visits_children_first_and_prunes() {
    let tree = sample_tree();
    let mutation = Flags::from_bits_truncate(0xF);
    assert_eq!(commit_effects(&tree, mutation), vec![4, 3, 2, 5, 6, 1]);
    let layout = Flags::from_bits_truncate(0x10);
    assert_eq!(commit_effects(&tree, layout), vec![1]);
}

#[test]
fn mutation_and_layout_work() {
    let flags = Flags::from_bits_truncate(0x1F);
    let (kept, work) = commit_mutation_effects_on_fiber(flags, WorkTag::HostComponent);
    assert_eq!(kept.bits(), 0x10);
    assert!(work.placement && work.deletions && work.update && work.passive && work.detach_ref);
    let (kept, work) = commit_mutation_effects_on_fiber(Flags::from_bits_truncate(0x10), WorkTag::FunctionComponent);
    assert_eq!(kept.bits(), 0x10);
    assert!(!work.placement && !work.detach_ref);
    let (kept, attach) = commit_layout_effects_on_fiber(Flags::from_bits_truncate(0x11), WorkTag::HostComponent);
    assert!(attach);
    assert_eq!(kept.bits(), 0x1);
    let (kept, attach) = commit_layout_effects_on_fiber(Flags::from_bits_truncate(0x11), WorkTag::HostText);
    assert!(!attach);
    assert_eq!(kept.bits(), 0x11);
}

#[test]
fn deletion_unmounts_parent_first() {
    let text4 = node(4, WorkTag::HostText, Some(40), 0, 0, vec![]);
    let div3 = node(3, WorkTag::HostComponent, Some(30), 0, 0, vec![text4]);
    let inner = node(8, WorkTag::FunctionComponent, None, 0, 0, vec![]);
    let fc2 = node(2, WorkTag::FunctionComponent, None, 0, 0, vec![div3, inner]);
    let order: Vec<u32> = commit_nested_unmounts(&fc2).iter().map(|e| e.0).collect();
    assert_eq!(order, vec![2, 3, 4, 8]);
    let plan = commit_deletion(&fc2);
    assert_eq!(plan.remove, Some(Some(30)));
    assert_eq!(plan.passive_unmounts, vec![2, 8]);
    let lone = node(9, WorkTag::FunctionComponent, None, 0, 0, vec![]);
    let plan = commit_deletion(&lone);
    assert_eq!(plan.remove, None);
    assert_eq!(plan.passive_unmounts, vec![9]);
}

#[test]
fn host_parent_is_nearest_host() {
    let tags = vec![WorkTag::FunctionComponent, WorkTag::Fragment, WorkTag::HostComponent, WorkTag::HostRoot];
    assert_eq!(get_host_parent(&tags), Some(2));
    assert_eq!(get_host_parent(&vec![WorkTag::FunctionComponent]), None);
    assert_eq!(get_host_parent(&vec![WorkTag::HostRoot]), Some(0));
}

#[test]
fn effect_list_filter() {
    let tags = vec![
        Flags::from_bits_truncate(0x3),
        Flags::from_bits_truncate(0x2),
        Flags::from_bits_truncate(0x1),
        Flags::from_bits_truncate(0x3),
    ];
    assert_eq!(commit_hook_effect_list(Flags::from_bits_truncate(0x3), &tags), vec![0, 3]);
    assert_eq!(commit_hook_effect_list(Flags::from_bits_truncate(0x2), &tags), vec![0, 1, 3]);
}

#[test]
fn bubbling_gathers_children() {
    let children = vec![
        ChildSummary {
            flags: Flags::placement(),
            subtree_flags: Flags::update(),
            lanes: Lane::sync_lane(),
            child_lanes: Lane::no_lane(),
        },
        ChildSummary {
            flags: Flags::no_flags(),
            subtree_flags: Flags::passive_effect(),
            lanes: Lane::no_lane(),
            child_lanes: Lane::default_lane(),
        },
    ];
    let mut subtree_flags = Flags::ref_flag();
    let mut child_lanes = Lane::idle_lane();
    bubble_properties(&mut subtree_flags, &mut child_lanes, &children);
    assert_eq!(subtree_flags.bits(), 0x1B);
    assert_eq!(child_lanes.bits(), 0x4000_0005);
}

fn input(tag: WorkTag, has_current_and_node: bool, ref_changed: bool, has_ref: bool, text_changed: bool) -> CompleteInput {
    CompleteInput { tag, has_current_and_node, ref_changed, has_ref, text_changed, content: 77 }
}

#[test]
fn completing_fibers() {
    let none = Flags::no_flags();
    assert_eq!(complete_step(input(WorkTag::HostComponent, false, false, true, false), none), (Flags::ref_flag(), CompleteAction::CreateInstance));
    assert_eq!(complete_step(input(WorkTag::HostComponent, false, false, false, false), none), (none, CompleteAction::CreateInstance));
    assert_eq!(complete_step(input(WorkTag::HostComponent, true, true, true, false), none), (Flags::ref_flag(), CompleteAction::Nothing));
    assert_eq!(complete_step(input(WorkTag::HostText, true, false, false, true), none), (Flags::update(), CompleteAction::Nothing));
    assert_eq!(complete_step(input(WorkTag::HostText, false, false, false, true), none), (none, CompleteAction::CreateTextInstance));
    assert_eq!(complete_step(input(WorkTag::ContextProvider, true, false, false, false), none), (none, CompleteAction::PopProvider));
    assert_eq!(complete_step(input(WorkTag::FunctionComponent, true, true, true, true), Flags::placement()), (Flags::placement(), CompleteAction::Nothing));
}

#[test]
fn scheduling_a_root() {
    let sync_and_default = Lane::sync_lane().union(&Lane::default_lane());
    assert_eq!(ensure_root_is_scheduled(Lane::no_lane(), Some(3), Lane::sync_lane()), (RootSchedule::Clear { cancel: Some(3) }, Lane::no_lane()));
    assert_eq!(ensure_root_is_scheduled(sync_and_default, Some(3), Lane::sync_lane()), (RootSchedule::Keep, Lane::sync_lane()));
    assert_eq!(
        ensure_root_is_scheduled(sync_and_default, Some(3), Lane::default_lane()),
        (RootSchedule::ScheduleSync { cancel: Some(3), lanes: sync_and_default }, Lane::sync_lane())
    );
    assert_eq!(
        ensure_root_is_scheduled(Lane::input_continuous_lane(), None, Lane::no_lane()),
        (RootSchedule::ScheduleConcurrent { cancel: None, priority: Priority::UserBlockingPriority }, Lane::input_continuous_lane())
    );
    assert_eq!(
        ensure_root_is_scheduled(Lane::idle_lane(), None, Lane::no_lane()),
        (RootSchedule::ScheduleConcurrent { cancel: None, priority: Priority::IdlePriority }, Lane::idle_lane())
    );
}

#[test]
fn update_lane_marks_ancestors() {
    let mut path = vec![
        PathNode { child_lanes: Lane::no_lane(), alternate_child_lanes: None },
        PathNode { child_lanes: Lane::default_lane(), alternate_child_lanes: Some(Lane::no_lane()) },
    ];
    assert_eq!(mark_update_lane_from_fiber_to_root(&mut path, WorkTag::HostRoot, Some(11), Lane::sync_lane()), Some(11));
    assert_eq!(path[0].child_lanes, Lane::sync_lane());
    assert_eq!(path[1].child_lanes.bits(), 5);
    assert_eq!(path[1].alternate_child_lanes, Some(Lane::sync_lane()));
    assert_eq!(mark_update_lane_from_fiber_to_root(&mut Vec::new(), WorkTag::FunctionComponent, None, Lane::sync_lane()), None);
}

#[test]
fn render_outcomes() {
    assert_eq!(render_root_exit_status(true, true), RootExitStatus::Incomplete);
    assert_eq!(render_root_exit_status(true, false), RootExitStatus::Completed);
    assert_eq!(render_root_exit_status(false, true), RootExitStatus::Completed);
    assert_eq!(concurrent_work_outcome(Lane::no_lane(), RootExitStatus::InProgress, true), ConcurrentOutcome::Done);
    assert_eq!(concurrent_work_outcome(Lane::default_lane(), RootExitStatus::Incomplete, true), ConcurrentOutcome::Continue);
    assert_eq!(concurrent_work_outcome(Lane::default_lane(), RootExitStatus::Incomplete, false), ConcurrentOutcome::Done);
    assert_eq!(concurrent_work_outcome(Lane::default_lane(), RootExitStatus::Completed, false), ConcurrentOutcome::Commit);
}

fn begin(has_current: bool, changed: bool, current_lanes: Lane, child_lanes: Lane, tag: WorkTag) -> BeginWorkInput {
    BeginWorkInput { has_current, props_or_type_changed: changed, current_lanes, child_lanes, tag }
}

#[test]
fn beginning_work() {
    let sync = Lane::sync_lane();
    let none = Lane::no_lane();
    assert_eq!(begin_step(begin(false, false, none, none, WorkTag::HostRoot), sync), (BeginStep::Render, false, false));
    assert_eq!(begin_step(begin(true, true, none, none, WorkTag::FunctionComponent), sync), (BeginStep::Render, true, false));
    assert_eq!(begin_step(begin(true, false, sync, none, WorkTag::FunctionComponent), sync), (BeginStep::Render, false, false));
    assert_eq!(begin_step(begin(true, false, none, none, WorkTag::FunctionComponent), sync), (BeginStep::SkipSubtree, false, false));
    assert_eq!(begin_step(begin(true, false, none, sync, WorkTag::ContextProvider), sync), (BeginStep::CloneChildren, false, true));
    assert!(bailout_on_already_finished_work(sync, sync));
    assert!(!bailout_on_already_finished_work(none, sync));
    assert!(mark_ref(false, true, false));
    assert!(!mark_ref(false, false, true));
    assert!(mark_ref(true, false, true));
    assert!(update_memo_component(true, none, true, true, sync));
    assert!(!update_memo_component(true, sync, true, true, sync));
    assert!(!update_memo_component(false, none, true, true, sync));
    assert_eq!(update_context_provider(false, true, true), ProviderStep::Render);
    assert_eq!(update_context_provider(true, true, true), ProviderStep::Bailout);
    assert_eq!(update_context_provider(true, false, true), ProviderStep::Propagate);
    assert!(update_function_component(true, false));
    assert!(!update_function_component(true, true));
    let (lanes, flags) = bailout_hook(Lane::sync_lane().union(&Lane::default_lane()), Flags::from_bits_truncate(0x9), sync);
    assert_eq!(lanes, Lane::default_lane());
    assert_eq!(flags, Flags::placement());
}

#[test]
fn host_root_renders_its_element() {
    let call = |f: u64, _s: Option<u64>| f;
    let shape = |_h: u64| NewChildren::Element { key: None, type_handle: 9 };
    let mut queue = create_update_queue();
    queue.shared.pending.push(create_update(Action::Value(500), Lane::sync_lane()));
    let mut current: Option<Option<u64>> = Some(None);
    let old = vec![OldChild { key: None, index: 0, is_host_text: false, type_handle: Some(9) }];
    let (children, next) = update_host_root(None, &mut queue, &mut current, Lane::sync_lane(), &call, Lane::no_lane(), &old, true, &shape);
    assert_eq!(children, 500);
    match next {
        HostRootNext::Reconcile(plan) => {
            assert_eq!(plan.children, vec![PlacedChild { index: 0, source: ChildSource::Reused(0), placement: false }]);
            assert!(plan.deletions.is_empty());
        }
        _ => panic!("reconcile expected"),
    }
    assert_eq!(current, Some(Some(500)));
    assert!(queue.shared.pending.is_empty());
    let (children, next) = update_host_root(Some(500), &mut queue, &mut current, Lane::sync_lane(), &call, Lane::no_lane(), &old, true, &shape);
    assert_eq!(children, 500);
    assert!(matches!(next, HostRootNext::SkipSubtree));
    let (_, next) = update_host_root(Some(500), &mut queue, &mut current, Lane::sync_lane(), &call, Lane::sync_lane(), &old, true, &shape);
    assert!(matches!(next, HostRootNext::CloneChildren));
}

#[test]
fn completing_a_host_element_creates_appends_and_bubbles() {
    let mut text = node(4, WorkTag::HostText, Some(40), 0x1, 0, vec![]);
    text.lanes = Lane::default_lane();
    let mut wip = node(3, WorkTag::HostComponent, None, 0, 0, vec![text]);
    wip.type_handle = 9;
    wip.pending_props = 20;
    let create_instance = |type_handle: u64, props: u64| type_handle * 1000 + props;
    let create_text_instance = |content: u64| content + 1;
    let appended = complete_work(
        &mut wip,
        input(WorkTag::HostComponent, false, false, true, false),
        &create_instance,
        &create_text_instance,
    );
    assert_eq!(appended, vec![Some(40)]);
    assert_eq!(wip.state_node, Some(9020));
    assert_eq!(wip.flags, Flags::ref_flag());
    assert_eq!(wip.subtree_flags, Flags::placement());
    assert_eq!(wip.child_lanes, Lane::default_lane());
    let mut t = node(5, WorkTag::HostText, Some(50), 0, 0, vec![]);
    t.alternate = Some(6);
    let appended = complete_work(&mut t, input(WorkTag::HostText, true, false, false, true), &create_instance, &create_text_instance);
    assert!(appended.is_empty());
    assert_eq!(t.flags, Flags::update());
    assert_eq!(t.state_node, Some(50));
    let mut fresh_text = node(8, WorkTag::HostText, None, 0, 0, vec![]);
    let appended = complete_work(&mut fresh_text, input(WorkTag::HostText, false, false, false, false), &create_instance, &create_text_instance);
    assert!(appended.is_empty());
    assert_eq!(fresh_text.state_node, Some(78));
}

#[test]
fn bailing_out_clones_the_current_children() {
    let mut a = node(10, WorkTag::HostText, Some(1), 0x1, 0x2, vec![]);
    a.alternate = Some(20);
    a.pending_props = 31;
    a.memoized_props = 30;
    let mut b = node(11, WorkTag::HostComponent, Some(2), 0, 0, vec![node(12, WorkTag::HostText, Some(3), 0, 0, vec![])]);
    b.type_handle = 66;
    let mut current_children = vec![a, b];
    let mut next_id = 50;
    let clones = clone_child_fibers(&mut current_children, &mut next_id);
    assert_eq!(clones.len(), 2);
    assert_eq!((clones[0].id, clones[0].alternate, clones[0].flags.bits(), clones[0].subtree_flags.bits()), (20, Some(10), 0x1, 0));
    assert_eq!((clones[0].pending_props, clones[0].memoized_props), (31, 30));
    assert_eq!((clones[1].id, clones[1].alternate, clones[1].type_handle), (50, Some(11), 66));
    assert_eq!(clones[1].children.len(), 1);
    assert_eq!(clones[1].children[0].id, 12);
    assert_eq!(current_children[0].alternate, Some(20));
    assert_eq!(current_children[1].alternate, Some(50));
    assert_eq!(next_id, 51);
    let mut wip = node(1, WorkTag::FunctionComponent, None, 0, 0, vec![]);
    wip.alternate = Some(2);
    wip.child_lanes = Lane::sync_lane();
    let input = BeginWorkInput { has_current: true, props_or_type_changed: false, current_lanes: Lane::no_lane(), child_lanes: Lane::sync_lane(), tag: WorkTag::FunctionComponent };
    let r = begin_work(&mut wip, &mut current_children, input, Lane::sync_lane(), &mut next_id);
    assert_eq!(r, (BeginStep::CloneChildren, false, false));
    assert_eq!(wip.children.len(), 2);
    assert_eq!(wip.children[1].id, 50);
    assert_eq!(next_id, 51);
    let mut wip2 = node(7, WorkTag::FunctionComponent, None, 0, 0, vec![]);
    wip2.lanes = Lane::sync_lane();
    let input = BeginWorkInput { has_current: false, props_or_type_changed: false, current_lanes: Lane::no_lane(), child_lanes: Lane::no_lane(), tag: WorkTag::FunctionComponent };
    assert_eq!(begin_work(&mut wip2, &mut Vec::new(), input, Lane::sync_lane(), &mut next_id).0, BeginStep::Render);
    assert_eq!(wip2.lanes, Lane::no_lane());
}

#[test]
fn work_in_progress_pairs_with_its_current_fiber() {
    let mut current = node(3, WorkTag::HostComponent, Some(30), 0x1, 0x4, vec![node(4, WorkTag::HostText, Some(40), 0, 0, vec![])]);
    current.type_handle = 8;
    current.memoized_props = 5;
    let mut next_id = 7;
    let wip = create_work_in_progress(&mut current, 6, &mut next_id);
    assert_eq!((wip.id, wip.alternate, current.alternate), (7, Some(3), Some(7)));
    assert_eq!((wip.type_handle, wip.pending_props, wip.memoized_props), (8, 6, 5));
    assert_eq!((wip.flags.bits(), wip.subtree_flags.bits()), (0x1, 0));
    assert_eq!(wip.children.len(), 1);
    assert_eq!(wip.children[0].id, 4);
    assert_eq!(next_id, 8);
    let again = create_work_in_progress(&mut current, 9, &mut next_id);
    assert_eq!((again.id, again.pending_props, next_id), (7, 9, 8));
}
