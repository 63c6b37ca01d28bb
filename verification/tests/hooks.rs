use react_wasm::fiber_hooks::{
    mount_effect, mount_state, mount_work_in_progress_hook, update_effect, update_state,
    update_work_in_progress_hook, Effect, Hook, HookCursor,
};
use react_wasm::flags::Flags;
use react_wasm::hooks::{are_hook_inputs_equal, mount_effect_tag, reuses_memoized, update_effect_tag};
use react_wasm::lanes::Lane;
use react_wasm::update_queue::{create_update, create_update_queue, Action};

#[test]
fn hook_inputs_compare_entry_by_entry() {
    let a = Some(vec![Some(1), Some(2)]);
    let b = Some(vec![Some(1), Some(2)]);
    let c = Some(vec![Some(1), Some(3)]);
    assert!(are_hook_inputs_equal(&a, &b));
    assert!(!are_hook_inputs_equal(&a, &c));
    assert!(!are_hook_inputs_equal(&None, &b));
    assert!(!are_hook_inputs_equal(&a, &None));
    let shorter = Some(vec![Some(1)]);
    assert!(are_hook_inputs_equal(&shorter, &a));
    assert!(!are_hook_inputs_equal(&a, &shorter));
    let with_undefined = Some(vec![Some(1), Some(2), None]);
    assert!(are_hook_inputs_equal(&with_undefined, &a));
    assert!(are_hook_inputs_equal(&Some(vec![]), &Some(vec![])));
}

#[test]
fn effect_tags() {
    assert_eq!(mount_effect_tag().bits(), 3);
    let deps = Some(vec![Some(4)]);
    let (tag, work) = update_effect_tag(&deps, &deps.clone());
    assert_eq!(tag.bits(), 2);
    assert!(!work);
    let (tag, work) = update_effect_tag(&Some(vec![Some(5)]), &deps);
    assert_eq!(tag.bits(), 3);
    assert!(work);
    let (tag, work) = update_effect_tag(&None, &deps);
    assert_eq!(tag.bits(), 3);
    assert!(work);
}

#[test]
fn memo_reuse() {
    let deps = Some(vec![Some(4)]);
    assert!(reuses_memoized(&deps, &deps.clone()));
    assert!(!reuses_memoized(&None, &None));
    assert!(!reuses_memoized(&Some(vec![Some(3)]), &deps));
}

#[test]
fn mount_hooks_in_call_order() {
    let mut hooks: Vec<Hook> = Vec::new();
    let mut cursor = HookCursor::new();
    assert_eq!(mount_work_in_progress_hook(&mut hooks, &mut cursor), 0);
    let (i, queue) = mount_state(&mut hooks, &mut cursor, 42, 900);
    assert_eq!(i, 1);
    assert_eq!(hooks.len(), 2);
    assert_eq!(hooks[1].memoized_state, Some(42));
    assert_eq!(hooks[1].base_state, Some(42));
    assert_eq!(queue.dispatch, Some(900));
    assert_eq!(queue.last_rendered_state, Some(42));
    assert_eq!(cursor.work_in_progress_hook, Some(1));
}

#[test]
fn update_render_copies_current_hooks() {
    let current = vec![
        Hook { memoized_state: Some(1), base_state: Some(1), base_queue: vec![] },
        Hook { memoized_state: Some(2), base_state: None, base_queue: vec![] },
    ];
    let mut wip: Vec<Hook> = Vec::new();
    let mut cursor = HookCursor::new();
    assert_eq!(update_work_in_progress_hook(&current, &mut wip, &mut cursor), 0);
    assert_eq!(update_work_in_progress_hook(&current, &mut wip, &mut cursor), 1);
    assert_eq!(wip.len(), 2);
    assert_eq!(wip[1].memoized_state, Some(2));
    assert_eq!(cursor.current_hook, Some(1));
}

#[test]
fn update_state_processes_pending_updates() {
    let mut current = vec![Hook { memoized_state: Some(1), base_state: Some(1), base_queue: vec![] }];
    let mut wip: Vec<Hook> = Vec::new();
    let mut cursor = HookCursor::new();
    let mut queue = create_update_queue();
    queue.dispatch = Some(77);
    queue.shared.pending.push(create_update(Action::Value(5), Lane::sync_lane()));
    queue.shared.pending.push(create_update(Action::Function(3), Lane::default_lane()));
    let mut fiber_lanes = Lane::no_lane();
    let call = |f: u64, s: Option<u64>| f * 10 + s.unwrap_or(0);
    let (state, dispatch, changed) =
        update_state(&mut current, &mut wip, &mut cursor, &mut queue, &mut fiber_lanes, Lane::sync_lane(), &call);
    assert_eq!(state, Some(5));
    assert_eq!(dispatch, Some(77));
    assert!(changed);
    assert!(queue.shared.pending.is_empty());
    assert_eq!(queue.last_rendered_state, Some(5));
    assert_eq!(fiber_lanes, Lane::default_lane());
    assert_eq!(current[0].base_queue.len(), 2);
    assert_eq!(wip[0].memoized_state, Some(5));
    assert_eq!(wip[0].base_state, Some(1));
    assert_eq!(wip[0].base_queue.len(), 1);
    assert_eq!(wip[0].base_queue[0].action, Some(Action::Function(3)));
}

#[test]
fn update_state_without_updates_keeps_state() {
    let mut current = vec![Hook { memoized_state: Some(4), base_state: Some(4), base_queue: vec![] }];
    let mut wip: Vec<Hook> = Vec::new();
    let mut cursor = HookCursor::new();
    let mut queue = create_update_queue();
    let mut fiber_lanes = Lane::no_lane();
    let call = |f: u64, _s: Option<u64>| f;
    let (state, _, changed) =
        update_state(&mut current, &mut wip, &mut cursor, &mut queue, &mut fiber_lanes, Lane::sync_lane(), &call);
    assert_eq!(state, Some(4));
    assert!(!changed);
}

#[test]
fn update_state_with_same_value_reports_no_change() {
    let mut current = vec![Hook { memoized_state: Some(4), base_state: Some(4), base_queue: vec![] }];
    let mut wip: Vec<Hook> = Vec::new();
    let mut cursor = HookCursor::new();
    let mut queue = create_update_queue();
    queue.shared.pending.push(create_update(Action::Value(4), Lane::sync_lane()));
    let mut fiber_lanes = Lane::no_lane();
    let call = |f: u64, _s: Option<u64>| f;
    let (state, _, changed) =
        update_state(&mut current, &mut wip, &mut cursor, &mut queue, &mut fiber_lanes, Lane::sync_lane(), &call);
    assert_eq!(state, Some(4));
    assert!(!changed);
}

#[test]
fn effects_are_listed_in_call_order() {
    use_effects();
}

fn use_effects() {
    let mut effects: Vec<react_wasm::fiber_hooks::Effect> = Vec::new();
    let tag = react_wasm::hooks::mount_effect_tag();
    assert_eq!(react_wasm::fiber_hooks::push_effect(&mut effects, tag, 10, None, None), 0);
    assert_eq!(react_wasm::fiber_hooks::push_effect(&mut effects, tag, 11, Some(12), Some(vec![Some(1)])), 1);
    assert_eq!(effects.len(), 2);
    assert_eq!(effects[1].create, 11);
    assert_eq!(effects[1].destroy, Some(12));
    assert_eq!(effects[1].deps, Some(vec![Some(1)]));
}

#[test]
fn effects_are_pushed_with_the_last_destroy() {
    let mut hooks: Vec<Hook> = Vec::new();
    let mut cursor = HookCursor::new();
    let mut effects: Vec<Effect> = Vec::new();
    let mut flags = Flags::no_flags();
    mount_effect(&mut hooks, &mut cursor, &mut effects, &mut flags, 10, Some(vec![Some(1)]));
    assert_eq!(effects.len(), 1);
    assert_eq!(effects[0].tag.bits(), 3);
    assert_eq!((effects[0].create, effects[0].destroy), (10, None));
    assert_eq!(flags, Flags::passive_effect());
    assert_eq!(hooks[0].memoized_state, Some(0));

    let mut prev_effects = effects;
    prev_effects[0].destroy = Some(99);
    let current = hooks;
    let mut wip: Vec<Hook> = Vec::new();
    let mut cursor = HookCursor::new();
    let mut effects: Vec<Effect> = Vec::new();
    let mut flags = Flags::no_flags();
    update_effect(&current, &mut wip, &mut cursor, &prev_effects, &mut effects, &mut flags, 11, Some(vec![Some(1)]));
    assert_eq!(effects.len(), 1);
    assert_eq!(effects[0].tag.bits(), 2);
    assert_eq!((effects[0].create, effects[0].destroy), (11, Some(99)));
    assert_eq!(effects[0].deps, Some(vec![Some(1)]));
    assert_eq!(flags, Flags::no_flags());
    assert_eq!(wip[0].memoized_state, Some(0));

    let mut wip: Vec<Hook> = Vec::new();
    let mut cursor = HookCursor::new();
    let mut effects: Vec<Effect> = Vec::new();
    let mut flags = Flags::no_flags();
    update_effect(&current, &mut wip, &mut cursor, &prev_effects, &mut effects, &mut flags, 12, Some(vec![Some(2)]));
    assert_eq!(effects[0].tag.bits(), 3);
    assert_eq!((effects[0].create, effects[0].destroy), (12, Some(99)));
    assert_eq!(flags, Flags::passive_effect());
}
