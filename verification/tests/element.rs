use react_wasm::element::{
    children_prop, is_valid_element, jsx_dev, resolve_key, resolve_ref, ElementConfig, JsVal, Props,
};
use react_wasm::lazy::{lazy_initializer, lazy_on_reject, lazy_on_resolve, LazyPayload, LazyStatus};

#[test]
fn keys_and_refs_resolve() {
    assert_eq!(resolve_key(JsVal::Undefined), JsVal::Null);
    assert_eq!(resolve_key(JsVal::Str(3)), JsVal::Str(3));
    assert_eq!(resolve_key(JsVal::Other { handle: 4, json: 5 }), JsVal::Str(5));
    assert_eq!(resolve_ref(JsVal::Undefined), JsVal::Null);
    assert_eq!(resolve_ref(JsVal::Other { handle: 4, json: 5 }), JsVal::Other { handle: 4, json: 5 });
}

#[test]
fn config_splits_into_props_key_and_ref() {
    let config = ElementConfig::Entries(vec![
        ("className".to_string(), JsVal::Str(1)),
        ("key".to_string(), JsVal::Other { handle: 2, json: 3 }),
        ("ref".to_string(), JsVal::Other { handle: 4, json: 5 }),
        ("onClick".to_string(), JsVal::Other { handle: 6, json: 7 }),
    ]);
    let e = jsx_dev(9, &config, JsVal::Str(8));
    assert_eq!(e.type_handle, 9);
    assert_eq!(e.key, JsVal::Str(3));
    assert_eq!(e.ref_value, JsVal::Other { handle: 4, json: 5 });
    match e.props {
        Props::Entries(p) => {
            assert_eq!(p, vec![("className".to_string(), JsVal::Str(1)), ("onClick".to_string(), JsVal::Other { handle: 6, json: 7 })]);
        }
        Props::Object(_) => panic!("entries expected"),
    }
}

#[test]
fn key_given_apart_is_used_without_key_prop() {
    let e = jsx_dev(1, &ElementConfig::Entries(vec![]), JsVal::Str(8));
    assert_eq!(e.key, JsVal::Str(8));
    assert_eq!(e.ref_value, JsVal::Null);
    let e = jsx_dev(1, &ElementConfig::Opaque(11), JsVal::Undefined);
    assert_eq!(e.key, JsVal::Null);
    assert!(matches!(e.props, Props::Object(11)));
    let e = jsx_dev(1, &ElementConfig::NotObject, JsVal::Undefined);
    assert!(matches!(e.props, Props::Entries(ref p) if p.is_empty()));
}

#[test]
fn children_of_jsx() {
    assert_eq!(children_prop(&vec![], 5), None);
    assert_eq!(children_prop(&vec![JsVal::Str(1)], 5), Some(JsVal::Str(1)));
    assert_eq!(children_prop(&vec![JsVal::Str(1), JsVal::Str(2)], 5), Some(JsVal::Other { handle: 5, json: 5 }));
}

#[test]
fn valid_elements() {
    assert!(is_valid_element(true, "react.element"));
    assert!(!is_valid_element(true, "react.context"));
    assert!(!is_valid_element(false, "react.element"));
}

#[test]
fn lazy_payload_moves_through_loading() {
    let load = |loader: u64| loader + 1000;
    let mut payload = LazyPayload { status: LazyStatus::Uninitialized, result: 7 };
    assert_eq!(lazy_initializer(&mut payload, &load), Err(1007));
    assert_eq!(payload, LazyPayload { status: LazyStatus::Pending, result: 1007 });
    assert_eq!(lazy_initializer(&mut payload, &load), Err(1007));
    lazy_on_resolve(&mut payload, 42);
    assert_eq!(lazy_initializer(&mut payload, &load), Ok(42));
    assert_eq!(payload, LazyPayload { status: LazyStatus::Resolved, result: 42 });
    lazy_on_reject(&mut payload, 9);
    assert_eq!(lazy_initializer(&mut payload, &load), Err(9));
}
