use react_wasm::child_fiber::{
    reconcile_child_fibers, reconcile_children_array, reconcile_single_element,
    reconcile_single_text_node, ChildSource, NewChild, NewChildren, OldChild, PlacedChild,
};

fn old_element(key: Option<u64>, index: u32, type_handle: u64) -> OldChild {
    OldChild { key, index, is_host_text: false, type_handle: Some(type_handle) }
}

fn old_text(index: u32) -> OldChild {
    OldChild { key: None, index, is_host_text: true, type_handle: None }
}

#[test]
fn moved_keyed_child_is_placed() {
    let old = vec![old_element(Some(1), 0, 10), old_element(Some(2), 1, 20)];
    let new = vec![
        NewChild::Element { key: Some(2), type_handle: 20 },
        NewChild::Element { key: Some(1), type_handle: 10 },
    ];
    let plan = reconcile_children_array(&old, &new, true);
    assert_eq!(
        plan.children,
        vec![
            PlacedChild { index: 0, source: ChildSource::Reused(1), placement: false },
            PlacedChild { index: 1, source: ChildSource::Reused(0), placement: true },
        ]
    );
    assert!(plan.deletions.is_empty());
}

#[test]
fn removed_and_retyped_children() {
    let old = vec![old_element(Some(1), 0, 10), old_element(Some(2), 1, 20), old_text(2)];
    let new = vec![
        NewChild::Element { key: Some(1), type_handle: 11 },
        NewChild::Text,
        NewChild::Null,
    ];
    let plan = reconcile_children_array(&old, &new, true);
    assert_eq!(
        plan.children,
        vec![
            PlacedChild { index: 0, source: ChildSource::Created, placement: true },
            PlacedChild { index: 1, source: ChildSource::Created, placement: true },
            PlacedChild { index: 2, source: ChildSource::Reused(2), placement: false },
        ]
    );
    let mut deletions = plan.deletions.clone();
    deletions.sort();
    assert_eq!(deletions, vec![0, 1]);
}

#[test]
fn repeated_old_key_finds_the_last_one() {
    let old = vec![old_element(Some(5), 0, 10), old_element(Some(5), 1, 20), old_element(Some(6), 2, 30)];
    let new = vec![NewChild::Element { key: Some(5), type_handle: 20 }];
    let plan = reconcile_children_array(&old, &new, true);
    assert_eq!(plan.children, vec![PlacedChild { index: 0, source: ChildSource::Reused(1), placement: false }]);
    assert_eq!(plan.deletions, vec![2]);
}

#[test]
fn found_child_of_another_type_is_deleted_first() {
    let old = vec![old_element(Some(1), 0, 10), old_element(Some(2), 1, 20)];
    let new = vec![NewChild::Element { key: Some(2), type_handle: 21 }];
    let plan = reconcile_children_array(&old, &new, true);
    assert_eq!(plan.children, vec![PlacedChild { index: 0, source: ChildSource::Created, placement: true }]);
    assert_eq!(plan.deletions, vec![1, 0]);
}

#[test]
fn null_child_reuses_text_at_its_position() {
    let old = vec![old_text(0)];
    let new = vec![NewChild::Null];
    let plan = reconcile_children_array(&old, &new, false);
    assert_eq!(plan.children, vec![PlacedChild { index: 0, source: ChildSource::Reused(0), placement: false }]);
    assert!(plan.deletions.is_empty());
}

#[test]
fn mount_places_nothing() {
    let new = vec![NewChild::Text, NewChild::Element { key: None, type_handle: 3 }, NewChild::Other];
    let plan = reconcile_children_array(&Vec::new(), &new, false);
    assert_eq!(
        plan.children,
        vec![
            PlacedChild { index: 0, source: ChildSource::Created, placement: false },
            PlacedChild { index: 1, source: ChildSource::Created, placement: false },
        ]
    );
}

#[test]
fn single_element_reuses_matching_key_and_type() {
    let old = vec![old_element(Some(1), 0, 10), old_element(Some(2), 1, 20)];
    let plan = reconcile_single_element(&old, Some(2), 20, true);
    assert_eq!(plan.children, vec![PlacedChild { index: 0, source: ChildSource::Reused(1), placement: false }]);
    assert_eq!(plan.deletions, vec![0]);
    let plan = reconcile_single_element(&old, Some(2), 21, true);
    assert_eq!(plan.children, vec![PlacedChild { index: 0, source: ChildSource::Created, placement: true }]);
    let mut d = plan.deletions.clone();
    d.sort();
    assert_eq!(d, vec![0, 1]);
}

#[test]
fn single_text_reuses_first_text() {
    let old = vec![old_element(None, 0, 10), old_text(1), old_text(2)];
    let plan = reconcile_single_text_node(&old, true);
    assert_eq!(plan.children, vec![PlacedChild { index: 0, source: ChildSource::Reused(1), placement: false }]);
    let mut d = plan.deletions.clone();
    d.sort();
    assert_eq!(d, vec![0, 2]);
    let plan = reconcile_single_text_node(&old, false);
    assert!(plan.deletions.is_empty());
}

#[test]
fn other_children_delete_everything() {
    let old = vec![old_text(0), old_element(None, 1, 5)];
    let plan = reconcile_child_fibers(&old, &NewChildren::Other, true);
    assert!(plan.children.is_empty());
    let mut d = plan.deletions.clone();
    d.sort();
    assert_eq!(d, vec![0, 1]);
    let plan = reconcile_child_fibers(&old, &NewChildren::Text, true);
    assert_eq!(plan.children, vec![PlacedChild { index: 0, source: ChildSource::Reused(0), placement: false }]);
    let plan = reconcile_child_fibers(&old, &NewChildren::Element { key: None, type_handle: 5 }, true);
    assert_eq!(plan.children, vec![PlacedChild { index: 0, source: ChildSource::Created, placement: true }]);
    let plan = reconcile_child_fibers(&old, &NewChildren::Array(vec![NewChild::Text]), true);
    assert_eq!(plan.children, vec![PlacedChild { index: 0, source: ChildSource::Reused(0), placement: false }]);
    assert_eq!(plan.deletions, vec![1]);
}
