use react_wasm::lanes::{
    get_highest_priority, include_some_lanes, is_subset_of_lanes, lanes_to_scheduler_priority,
    merge_lanes, remove_lanes, request_update_lane, scheduler_priority_to_lane, Lane,
};
use react_wasm::scheduler::{Priority, Scheduler};

#[test]
fn lane_constants() {
    assert_eq!(Lane::no_lane().bits(), 0);
    assert_eq!(Lane::sync_lane().bits(), 1);
    assert_eq!(Lane::input_continuous_lane().bits(), 2);
    assert_eq!(Lane::default_lane().bits(), 4);
    assert_eq!(Lane::idle_lane().bits(), 0x4000_0000);
    assert_eq!(Lane::from_bits_truncate(0xFFFF_FFFF).bits(), 0x4000_0007);
    assert_eq!(Lane::from_bits_truncate(0x10).bits(), 0);
}

#[test]
fn highest_priority_is_lowest_bit() {
    let lanes = merge_lanes(Lane::default_lane(), Lane::input_continuous_lane());
    assert_eq!(get_highest_priority(lanes).bits(), 2);
    let lanes = merge_lanes(Lane::idle_lane(), Lane::sync_lane());
    assert_eq!(get_highest_priority(lanes), Lane::sync_lane());
    assert_eq!(get_highest_priority(Lane::idle_lane()), Lane::idle_lane());
    assert_eq!(get_highest_priority(Lane::no_lane()), Lane::no_lane());
}

#[test]
fn lane_set_operations() {
    let a = merge_lanes(Lane::sync_lane(), Lane::default_lane());
    assert_eq!(a.bits(), 5);
    assert!(is_subset_of_lanes(a, Lane::sync_lane()));
    assert!(!is_subset_of_lanes(a, Lane::input_continuous_lane()));
    assert!(is_subset_of_lanes(a, Lane::no_lane()));
    assert!(include_some_lanes(a, Lane::default_lane()));
    assert!(!include_some_lanes(a, Lane::idle_lane()));
    assert_eq!(remove_lanes(a, Lane::sync_lane()), Lane::default_lane());
    assert!(a.contains(&Lane::default_lane()));
    assert_eq!(a.intersection(&Lane::default_lane()), Lane::default_lane());
    assert_eq!(a.difference(&Lane::default_lane()), Lane::sync_lane());
    assert_eq!(a.union(&Lane::idle_lane()).bits(), 0x4000_0005);
}

#[test]
fn priorities_and_lanes() {
    assert_eq!(scheduler_priority_to_lane(Priority::ImmediatePriority), Lane::sync_lane());
    assert_eq!(scheduler_priority_to_lane(Priority::UserBlockingPriority), Lane::input_continuous_lane());
    assert_eq!(scheduler_priority_to_lane(Priority::NormalPriority), Lane::default_lane());
    assert_eq!(scheduler_priority_to_lane(Priority::LowPriority), Lane::no_lane());
    assert_eq!(scheduler_priority_to_lane(Priority::IdlePriority), Lane::no_lane());
    assert_eq!(lanes_to_scheduler_priority(Lane::sync_lane()), Priority::ImmediatePriority);
    assert_eq!(lanes_to_scheduler_priority(Lane::input_continuous_lane()), Priority::UserBlockingPriority);
    assert_eq!(lanes_to_scheduler_priority(Lane::default_lane()), Priority::NormalPriority);
    assert_eq!(lanes_to_scheduler_priority(Lane::idle_lane()), Priority::IdlePriority);
    assert_eq!(lanes_to_scheduler_priority(Lane::no_lane()), Priority::IdlePriority);
    let mixed = merge_lanes(Lane::default_lane(), Lane::input_continuous_lane());
    assert_eq!(lanes_to_scheduler_priority(mixed), Priority::UserBlockingPriority);
}

#[test]
fn priority_lane_round_trip() {
    for p in [Priority::ImmediatePriority, Priority::UserBlockingPriority, Priority::NormalPriority] {
        assert_eq!(lanes_to_scheduler_priority(scheduler_priority_to_lane(p)), p);
    }
}

#[test]
fn update_lane_follows_scheduler_priority() {
    let mut scheduler = Scheduler::new();
    assert_eq!(request_update_lane(&scheduler), Lane::default_lane());
    let previous = scheduler.unstable_run_with_priority(Priority::ImmediatePriority);
    assert_eq!(request_update_lane(&scheduler), Lane::sync_lane());
    scheduler.restore_priority_level(previous);
    assert_eq!(request_update_lane(&scheduler), Lane::default_lane());
}
