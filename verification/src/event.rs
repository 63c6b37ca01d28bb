use vstd::prelude::*;

verus! {

/// The event props of an element on the path from the event's target up to
/// the container: whether the element carries an event props object, and
/// the function-valued props in it, by name, with the handles of the
/// functions.
pub struct ElementEventProps {
    pub is_object: bool,
    pub callbacks: Vec<(String, u64)>,
}

/// The listeners to call for an event: capture listeners, outermost element
/// first, then bubble listeners, innermost element first.
pub struct Paths {
    pub capture: Vec<u64>,
    pub bubble: Vec<u64>,
}

impl Paths {
    /// No listener.
    pub fn new() -> (r: Paths)
        ensures
            r.capture@ == Seq::<u64>::empty(),
            r.bubble@ == Seq::<u64>::empty(),
    {
        Paths { capture: Vec::new(), bubble: Vec::new() }
    }
}

/// The only event type the renderer listens to.
pub open spec fn is_click(event_type: Seq<char>) -> bool {
    event_type == "click"@
}

/// Whether the renderer supports the event type: only `click`.
pub fn is_valid_event_type(event_type: &str) -> (r: bool)
    ensures
        r == is_click(event_type@),
{
    let given = event_type.to_owned();
    let click = "click".to_owned();
    given == click
}

/// The prop names of the capture and bubble listeners of an event type:
/// `onClickCapture` and `onClick` for `click`, none for other types.
pub fn get_event_callback_name_from_event_type(event_type: &str) -> (r: Option<Vec<&'static str>>)
    ensures
        r is Some == is_click(event_type@),
        r matches Some(names) ==> names@.len() == 2 && names@[0]@ == "onClickCapture"@
            && names@[1]@ == "onClick"@,
{
    if is_valid_event_type(event_type) {
        return Some(vec!["onClickCapture", "onClick"]);
    }
    None
}

/// The function prop of this name, if the element has one.
pub open spec fn lookup(callbacks: Seq<(String, u64)>, name: Seq<char>) -> Option<u64>
    decreases callbacks.len(),
{
    if callbacks.len() == 0 {
        None
    } else if callbacks[0].0@ == name {
        Some(callbacks[0].1)
    } else {
        lookup(callbacks.drop_first(), name)
    }
}

/// The listener of this prop name on an element.
pub open spec fn listener(e: ElementEventProps, name: Seq<char>) -> Option<u64> {
    if e.is_object {
        lookup(e.callbacks@, name)
    } else {
        None
    }
}

/// The capture listeners of `click` on the path (target first), outermost
/// element first.
pub open spec fn captures(path: Seq<ElementEventProps>) -> Seq<u64>
    decreases path.len(),
{
    if path.len() == 0 {
        Seq::empty()
    } else {
        let rest = captures(path.drop_last());
        match listener(path.last(), "onClickCapture"@) {
            Some(c) => seq![c] + rest,
            None => rest,
        }
    }
}

/// The bubble listeners of `click` on the path (target first), target first.
pub open spec fn bubbles(path: Seq<ElementEventProps>) -> Seq<u64>
    decreases path.len(),
{
    if path.len() == 0 {
        Seq::empty()
    } else {
        let rest = bubbles(path.drop_last());
        match listener(path.last(), "onClick"@) {
            Some(b) => rest.push(b),
            None => rest,
        }
    }
}

fn find_callback(callbacks: &Vec<(String, u64)>, name: &str) -> (r: Option<u64>)
    ensures
        r == lookup(callbacks@, name@),
{
    let wanted = name.to_owned();
    let mut i: usize = 0;
    assert(callbacks@.subrange(0, callbacks@.len() as int) =~= callbacks@);
    while i < callbacks.len()
        invariant
            i <= callbacks@.len(),
            wanted@ == name@,
            lookup(callbacks@, name@) == lookup(callbacks@.subrange(i as int, callbacks@.len() as int), name@),
        decreases callbacks@.len() - i,
    {
        let ghost rest = callbacks@.subrange(i as int, callbacks@.len() as int);
        proof {
            assert(rest.drop_first() =~= callbacks@.subrange(i + 1, callbacks@.len() as int));
        }
        if callbacks[i].0 == wanted {
            return Some(callbacks[i].1);
        }
        i = i + 1;
    }
    proof {
        assert(callbacks@.subrange(i as int, callbacks@.len() as int) =~= Seq::<(String, u64)>::empty());
    }
    None
}

/// Collects the listeners of an event along `path`, the elements from the
/// event's target up to, not including, the container.
pub fn collect_paths(path: &Vec<ElementEventProps>, event_type: &str) -> (r: Paths)
    ensures
        is_click(event_type@) ==> r.capture@ == captures(path@) && r.bubble@ == bubbles(path@),
        !is_click(event_type@) ==> r.capture@.len() == 0 && r.bubble@.len() == 0,
{
    let mut paths = Paths::new();
    let names = get_event_callback_name_from_event_type(event_type);
    let names = match names {
        None => {
            return paths;
        },
        Some(n) => n,
    };
    proof {
        reveal_strlit("onClickCapture");
        reveal_strlit("onClick");
    }
    let mut i: usize = 0;
    while i < path.len()
        invariant
            i <= path@.len(),
            names@.len() == 2,
            names@[0]@ == "onClickCapture"@,
            names@[1]@ == "onClick"@,
            paths.capture@ == captures(path@.take(i as int)),
            paths.bubble@ == bubbles(path@.take(i as int)),
        decreases path@.len() - i,
    {
        proof {
            assert(path@.take(i + 1).drop_last() =~= path@.take(i as int));
        }
        let element = &path[i];
        if element.is_object {
            let capture = find_callback(&element.callbacks, names[0]);
            if let Some(c) = capture {
                paths.capture.insert(0, c);
            }
            let bubble = find_callback(&element.callbacks, names[1]);
            if let Some(b) = bubble {
                paths.bubble.push(b);
            }
        }
        proof {
            assert(paths.capture@ =~= captures(path@.take(i + 1)));
            assert(paths.bubble@ =~= bubbles(path@.take(i + 1)));
        }
        i = i + 1;
    }
    proof {
        assert(path@.take(path@.len() as int) =~= path@);
    }
    paths
}

/// Where the dispatch of an event stands: in the capture or the bubble
/// phase, and the index of the next listener of that phase.
#[derive(Debug, Clone, Copy, PartialEq, Eq, Structural)]
pub struct EventFlow {
    pub in_bubble: bool,
    pub index: usize,
}

impl EventFlow {
    /// The dispatch of an event before any listener was called.
    pub fn new() -> (r: EventFlow)
        ensures
            r == (EventFlow { in_bubble: false, index: 0 }),
    {
        EventFlow { in_bubble: false, index: 0 }
    }
}

/// The next listener of an event to call, where `stopped` tells whether the
/// listener called last stopped the propagation. Capture listeners are
/// called in order, then bubble listeners in order; once a listener stops
/// the propagation no other one is called. `None` ends the dispatch.
pub fn next_event_listener(paths: &Paths, flow: &mut EventFlow, stopped: bool) -> (r: Option<u64>)
    requires
        !old(flow).in_bubble ==> old(flow).index <= paths.capture@.len(),
        old(flow).in_bubble ==> old(flow).index <= paths.bubble@.len(),
    ensures
        stopped ==> r is None && *final(flow) == *old(flow),
        !stopped && !old(flow).in_bubble && old(flow).index < paths.capture@.len() ==> r == Some(
            paths.capture@[old(flow).index as int],
        ) && *final(flow) == (EventFlow { in_bubble: false, index: (old(flow).index + 1) as usize }),
        !stopped && !old(flow).in_bubble && old(flow).index == paths.capture@.len() ==> if paths.bubble@.len()
            > 0 {
            r == Some(paths.bubble@[0]) && *final(flow) == (EventFlow { in_bubble: true, index: 1 })
        } else {
            r is None && *final(flow) == (EventFlow { in_bubble: true, index: 0 })
        },
        !stopped && old(flow).in_bubble && old(flow).index < paths.bubble@.len() ==> r == Some(
            paths.bubble@[old(flow).index as int],
        ) && *final(flow) == (EventFlow { in_bubble: true, index: (old(flow).index + 1) as usize }),
        !stopped && old(flow).in_bubble && old(flow).index == paths.bubble@.len() ==> r is None
            && *final(flow) == *old(flow),
        !final(flow).in_bubble ==> final(flow).index <= paths.capture@.len(),
        final(flow).in_bubble ==> final(flow).index <= paths.bubble@.len(),
{
    if stopped {
        return None;
    }
    if !flow.in_bubble {
        if flow.index < paths.capture.len() {
            let listener = paths.capture[flow.index];
            flow.index = flow.index + 1;
            return Some(listener);
        }
        flow.in_bubble = true;
        flow.index = 0;
    }
    if flow.index < paths.bubble.len() {
        let listener = paths.bubble[flow.index];
        flow.index = flow.index + 1;
        return Some(listener);
    }
    None
}

} // verus!
