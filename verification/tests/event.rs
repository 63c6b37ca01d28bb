use react_wasm::event::{
    collect_paths, get_event_callback_name_from_event_type, is_valid_event_type, next_event_listener,
    ElementEventProps, EventFlow, Paths,
};

fn element(callbacks: &[(&str, u64)]) -> ElementEventProps {
    ElementEventProps {
        is_object: true,
        callbacks: callbacks.iter().map(|(n, h)| (n.to_string(), *h)).collect(),
    }
}

#[test]
fn callback_names() {
    assert_eq!(get_event_callback_name_from_event_type("click"), Some(vec!["onClickCapture", "onClick"]));
    assert_eq!(get_event_callback_name_from_event_type("scroll"), None);
    assert!(is_valid_event_type("click"));
    assert!(!is_valid_event_type("Click"));
}

#[test]
fn paths_capture_outermost_first_bubble_innermost_first() {
    let path = vec![
        element(&[("onClick", 1), ("onClickCapture", 2)]),
        ElementEventProps { is_object: false, callbacks: vec![("onClick".to_string(), 9)] },
        element(&[("onClickCapture", 3)]),
        element(&[("onClick", 4), ("onMouseDown", 5)]),
    ];
    let paths = collect_paths(&path, "click");
    assert_eq!(paths.capture, vec![3, 2]);
    assert_eq!(paths.bubble, vec![1, 4]);
    let none = collect_paths(&path, "keydown");
    assert!(none.capture.is_empty());
    assert!(none.bubble.is_empty());
    let empty = Paths::new();
    assert!(empty.capture.is_empty() && empty.bubble.is_empty());
}

#[test]
fn listeners_run_capture_then_bubble() {
    let paths = Paths { capture: vec![1, 2], bubble: vec![3] };
    let mut flow = EventFlow::new();
    let mut called = Vec::new();
    while let Some(l) = next_event_listener(&paths, &mut flow, false) {
        called.push(l);
    }
    assert_eq!(called, vec![1, 2, 3]);
}

#[test]
fn stop_propagation_ends_dispatch() {
    let paths = Paths { capture: vec![1, 2], bubble: vec![3] };
    let mut flow = EventFlow::new();
    assert_eq!(next_event_listener(&paths, &mut flow, false), Some(1));
    assert_eq!(next_event_listener(&paths, &mut flow, true), None);
    let mut flow = EventFlow::new();
    assert_eq!(next_event_listener(&paths, &mut flow, false), Some(1));
    assert_eq!(next_event_listener(&paths, &mut flow, false), Some(2));
    assert_eq!(next_event_listener(&paths, &mut flow, false), Some(3));
    assert_eq!(next_event_listener(&paths, &mut flow, true), None);
}

#[test]
fn bubble_only_paths() {
    let paths = Paths { capture: vec![], bubble: vec![] };
    let mut flow = EventFlow::new();
    assert_eq!(next_event_listener(&paths, &mut flow, false), None);
    assert_eq!(flow, EventFlow { in_bubble: true, index: 0 });
}
