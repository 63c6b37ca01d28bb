use react_wasm::noop_host::{
    append_child_to_container, append_initial_child, child_to_jsx, children_to_jsx, create_container,
    create_instance, get_children_as_jsx, insert_child_to_container, next_id, remove_child, Jsx, NoopChild,
    NoopNode,
};

#[test]
fn ids_come_one_after_another() {
    let mut counter = 0u32;
    assert_eq!(next_id(&mut counter), 0);
    let container = create_container(&mut counter);
    let instance = create_instance(&mut counter);
    assert_eq!(container.id, 1);
    assert_eq!(instance.id, 2);
    assert_eq!(instance.parent, -1);
    assert!(instance.children.is_empty());
    assert_eq!(counter, 3);
}

#[test]
fn initial_children_are_appended_in_order() {
    let mut counter = 0u32;
    let mut parent = create_instance(&mut counter);
    let mut a = create_instance(&mut counter);
    let mut b = create_instance(&mut counter);
    append_initial_child(&mut parent, &mut a);
    append_initial_child(&mut parent, &mut b);
    assert_eq!(parent.children, vec![Some(1), Some(2)]);
    assert_eq!(a.parent, 0);
    assert_eq!(b.parent, 0);
}

#[test]
fn appending_to_the_container_leaves_undefined_in_the_old_place() {
    let mut container = NoopNode { id: 7, parent: -1, children: vec![Some(1), Some(2), Some(3)] };
    let mut child = NoopNode { id: 1, parent: 7, children: vec![] };
    append_child_to_container(&mut child, &mut container);
    assert_eq!(container.children, vec![None, Some(2), Some(3), Some(1)]);
    assert_eq!(child.parent, 7);
}

#[test]
fn removing_leaves_undefined_in_the_first_place() {
    let mut container = NoopNode { id: 7, parent: -1, children: vec![Some(4), Some(5), Some(4)] };
    remove_child(4, &mut container);
    assert_eq!(container.children, vec![None, Some(5), Some(4)]);
}

#[test]
fn inserting_puts_the_child_last() {
    let mut container = NoopNode { id: 7, parent: -1, children: vec![Some(1), Some(2)] };
    insert_child_to_container(1, &mut container, 9);
    assert_eq!(container.children, vec![None, Some(2), Some(1)]);
    insert_child_to_container(5, &mut container, 9);
    assert_eq!(container.children, vec![None, Some(2), Some(1), Some(5)]);
}

#[test]
fn host_nodes_render_as_jsx() {
    let div = NoopChild::Instance {
        type_handle: 1,
        props: 2,
        children: vec![NoopChild::Text { text: 3 }, NoopChild::Text { text: 4 }],
    };
    assert_eq!(
        child_to_jsx(&div),
        Jsx::Element {
            type_handle: 1,
            props: 2,
            children: Some(Box::new(Jsx::List(vec![Jsx::Text(3), Jsx::Text(4)]))),
        }
    );
    let span = NoopChild::Instance { type_handle: 5, props: 6, children: vec![NoopChild::Text { text: 7 }] };
    assert_eq!(
        child_to_jsx(&span),
        Jsx::Element { type_handle: 5, props: 6, children: Some(Box::new(Jsx::Text(7))) }
    );
    let empty = NoopChild::Instance { type_handle: 8, props: 9, children: vec![] };
    assert_eq!(child_to_jsx(&empty), Jsx::Element { type_handle: 8, props: 9, children: None });
    assert_eq!(children_to_jsx(&vec![]), Jsx::Null);
    assert_eq!(get_children_as_jsx(&vec![NoopChild::Text { text: 1 }]), Jsx::Text(1));
}
