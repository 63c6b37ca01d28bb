use vstd::prelude::*;

verus! {

/// A JavaScript value as building an element reads and writes it:
/// `undefined`, the `null` that a missing ref or key stands for, a string, or
/// another value; values are given by handles, and a value that is no string
/// carries the handle of its JSON text (a `null` read from JavaScript is such
/// a value).
#[derive(Debug, Clone, Copy, PartialEq, Eq, Structural)]
pub enum JsVal {
    Undefined,
    Null,
    Str(u64),
    Other { handle: u64, json: u64 },
}

/// The key an element gets from a value: `null` for `undefined` (and for
/// the `null` that stands for a missing key), the string itself, or the JSON
/// text of any other value.
pub open spec fn key_from(val: JsVal) -> JsVal {
    match val {
        JsVal::Undefined => JsVal::Null,
        JsVal::Str(s) => JsVal::Str(s),
        JsVal::Null => JsVal::Null,
        JsVal::Other { json, .. } => JsVal::Str(json),
    }
}

/// The ref an element gets from a value: `null` for `undefined`, else the
/// value.
pub open spec fn ref_from(val: JsVal) -> JsVal {
    match val {
        JsVal::Undefined => JsVal::Null,
        other => other,
    }
}

/// The key of an element from a value given as key.
pub fn resolve_key(val: JsVal) -> (r: JsVal)
    ensures
        r == key_from(val),
{
    match val {
        JsVal::Undefined => JsVal::Null,
        JsVal::Str(s) => JsVal::Str(s),
        JsVal::Null => JsVal::Null,
        JsVal::Other { json, .. } => JsVal::Str(json),
    }
}

/// The ref of an element from a value given as ref.
pub fn resolve_ref(val: JsVal) -> (r: JsVal)
    ensures
        r == ref_from(val),
{
    match val {
        JsVal::Undefined => JsVal::Null,
        other => other,
    }
}

/// The configuration of an element: the enumerable properties of an
/// ordinary object, in order; an object without a prototype, which is used
/// as the props as it is (by handle); or a value that is no object.
pub enum ElementConfig {
    Entries(Vec<(String, JsVal)>),
    Opaque(u64),
    NotObject,
}

/// The props of an element: properties in order, or an object used as it is.
pub enum Props {
    Entries(Vec<(String, JsVal)>),
    Object(u64),
}

/// An element: its `$$typeof` tag, its type (a handle), props, ref and key.
pub struct ReactElement {
    pub type_of: &'static str,
    pub type_handle: u64,
    pub props: Props,
    pub ref_value: JsVal,
    pub key: JsVal,
}

/// The property is the element's ref.
pub open spec fn is_ref_name(name: Seq<char>) -> bool {
    name == "ref"@
}

/// The property is the element's key.
pub open spec fn is_key_name(name: Seq<char>) -> bool {
    name == "key"@
}

/// The properties of a configuration that become props: all but `ref` and
/// `key`, in order.
pub open spec fn props_of(entries: Seq<(String, JsVal)>) -> Seq<(Seq<char>, JsVal)>
    decreases entries.len(),
{
    if entries.len() == 0 {
        Seq::empty()
    } else {
        let rest = props_of(entries.drop_last());
        let e = entries.last();
        if is_ref_name(e.0@) || is_key_name(e.0@) {
            rest
        } else {
            rest.push((e.0@, e.1))
        }
    }
}

/// The ref of an element from its configuration: that of its last `ref`
/// property, else `null`.
pub open spec fn ref_of(entries: Seq<(String, JsVal)>) -> JsVal
    decreases entries.len(),
{
    if entries.len() == 0 {
        JsVal::Null
    } else if is_ref_name(entries.last().0@) {
        ref_from(entries.last().1)
    } else {
        ref_of(entries.drop_last())
    }
}

/// The key of an element from its configuration: that of its last `key`
/// property, else the one given apart (`default`).
pub open spec fn key_of(entries: Seq<(String, JsVal)>, default: JsVal) -> JsVal
    decreases entries.len(),
{
    if entries.len() == 0 {
        key_from(default)
    } else if is_key_name(entries.last().0@) {
        key_from(entries.last().1)
    } else {
        key_of(entries.drop_last(), default)
    }
}

/// The view of props entries.
pub open spec fn entries_view(entries: Seq<(String, JsVal)>) -> Seq<(Seq<char>, JsVal)> {
    entries.map_values(|e: (String, JsVal)| (e.0@, e.1))
}

/// Whether `name` is `expected`.
fn name_is(name: &String, expected: &str) -> (r: bool)
    ensures
        r == (name@ == expected@),
{
    let e = expected.to_owned();
    *name == e
}

/// Builds an element of type `type_handle` from its configuration and the
/// key given apart: the `ref` and `key` properties give the element's ref
/// and key, every other property becomes a prop; an object without a
/// prototype is the props as it is, and a value that is no object gives no
/// props.
pub fn jsx_dev(type_handle: u64, config: &ElementConfig, key: JsVal) -> (r: ReactElement)
    ensures
        r.type_of@ == element_tag(),
        r.type_handle == type_handle,
        config matches ElementConfig::Entries(entries) ==> {
            &&& r.props matches Props::Entries(p) && entries_view(p@) == props_of(entries@)
            &&& r.ref_value == ref_of(entries@)
            &&& r.key == key_of(entries@, key)
        },
        config matches ElementConfig::Opaque(h) ==> r.props == Props::Object(*h) && r.ref_value
            == JsVal::Null && r.key == key_from(key),
        config is NotObject ==> (r.props matches Props::Entries(p) && p@.len() == 0) && r.ref_value
            == JsVal::Null && r.key == key_from(key),
{
    let resolved = resolve_key(key);
    match config {
        ElementConfig::Entries(entries) => {
            let mut props: Vec<(String, JsVal)> = Vec::new();
            let mut ref_value = JsVal::Null;
            let mut element_key = resolved;
            let mut i: usize = 0;
            while i < entries.len()
                invariant
                    i <= entries@.len(),
                    entries_view(props@) == props_of(entries@.take(i as int)),
                    ref_value == ref_of(entries@.take(i as int)),
                    element_key == key_of(entries@.take(i as int), key),
                decreases entries@.len() - i,
            {
                let ghost t = entries@.take(i + 1);
                proof {
                    reveal_strlit("ref");
                    reveal_strlit("key");
                    assert("ref"@[0] != "key"@[0]);
                    assert(t.drop_last() =~= entries@.take(i as int));
                    assert(t.last() == entries@[i as int]);
                }
                let name = &entries[i].0;
                let val = entries[i].1;
                if name_is(name, "ref") {
                    ref_value = resolve_ref(val);
                } else if name_is(name, "key") {
                    element_key = resolve_key(val);
                } else {
                    let ghost before = props@;
                    props.push((name.clone(), val));
                    proof {
                        assert(entries_view(props@) =~= entries_view(before).push((name@, val)));
                    }
                }
                i = i + 1;
            }
            proof {
                assert(entries@.take(i as int) =~= entries@);
            }
            ReactElement { type_of: "react.element", type_handle, props: Props::Entries(props), ref_value, key: element_key }
        },
        ElementConfig::Opaque(h) => ReactElement {
            type_of: "react.element",
            type_handle,
            props: Props::Object(*h),
            ref_value: JsVal::Null,
            key: resolved,
        },
        ElementConfig::NotObject => ReactElement {
            type_of: "react.element",
            type_handle,
            props: Props::Entries(Vec::new()),
            ref_value: JsVal::Null,
            key: resolved,
        },
    }
}

/// The `children` prop of an element made with children `children` (the
/// arguments after the configuration; `array` is the handle of the array
/// that holds them): none without children, the child itself for one, the
/// array for more.
pub fn children_prop(children: &Vec<JsVal>, array: u64) -> (r: Option<JsVal>)
    ensures
        children@.len() == 0 ==> r is None,
        children@.len() == 1 ==> r == Some(children@[0]),
        children@.len() > 1 ==> r == Some(JsVal::Other { handle: array, json: array }),
{
    if children.len() == 0 {
        None
    } else if children.len() == 1 {
        Some(children[0])
    } else {
        Some(JsVal::Other { handle: array, json: array })
    }
}

/// Whether a value is an element: an object (not `null`) whose `$$typeof`
/// property is the string `react.element` (`type_tag` is that property as a
/// string, empty when it is missing or no string).
pub fn is_valid_element(is_object: bool, type_tag: &str) -> (r: bool)
    ensures
        r == valid_element(is_object, type_tag@),
{
    if !is_object {
        return false;
    }
    let given = type_tag.to_owned();
    let element = "react.element".to_owned();
    given == element
}

/// The `$$typeof` tag of elements.
pub open spec fn element_tag() -> Seq<char> {
    "react.element"@
}

/// A value is an element: an object whose `$$typeof` is the element tag.
pub open spec fn valid_element(is_object: bool, type_tag: Seq<char>) -> bool {
    is_object && type_tag == element_tag()
}

/// Every element that `jsx_dev` builds, once written as an object with its
/// tag, is a valid element.
pub proof fn lemma_built_elements_are_valid(e: ReactElement)
    requires
        e.type_of@ == element_tag(),
    ensures
        valid_element(true, e.type_of@),
{
}

} // verus!
