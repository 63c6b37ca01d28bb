use vstd::prelude::*;

verus! {

/// A node of the test renderer's host tree, by the fields its operations
/// read and write: its id, the id of its parent (`-1` while it has none),
/// and its list of children in order, each the id of a child or `None` for
/// the `undefined` left in the place of a child taken out (an instance or a
/// container; a text node keeps none).
pub struct NoopNode {
    pub id: u32,
    pub parent: i64,
    pub children: Vec<Option<u32>>,
}

/// `s` with its first entry of child `x` replaced by `undefined` (`s` itself
/// when it holds none).
pub open spec fn blank_first(s: Seq<Option<u32>>, x: u32) -> Seq<Option<u32>>
    decreases s.len(),
{
    if s.len() == 0 {
        s
    } else if s[0] == Some(x) {
        seq![None::<u32>] + s.drop_first()
    } else {
        seq![s[0]] + blank_first(s.drop_first(), x)
    }
}

/// Blanking the first `x` is blanking the first index that holds it.
proof fn lemma_blank_first_at(s: Seq<Option<u32>>, x: u32, i: int)
    requires
        0 <= i <= s.len(),
        forall|k: int| 0 <= k < i ==> s[k] != Some(x),
        i < s.len() ==> s[i] == Some(x),
    ensures
        i < s.len() ==> blank_first(s, x) == s.update(i, None),
        i == s.len() ==> blank_first(s, x) == s,
    decreases i,
{
    if s.len() > 0 && i > 0 {
        lemma_blank_first_at(s.drop_first(), x, i - 1);
        if i < s.len() {
            assert(seq![s[0]] + s.drop_first().update(i - 1, None) =~= s.update(i, None));
        } else {
            assert(seq![s[0]] + s.drop_first() =~= s);
        }
    } else if s.len() > 0 {
        assert(seq![None::<u32>] + s.drop_first() =~= s.update(0, None));
    }
}

/// Replaces the first entry of child `x` in `v` by `undefined`, if there is
/// one; returns whether there was one.
fn blank_child(v: &mut Vec<Option<u32>>, x: u32) -> (r: bool)
    ensures
        r == old(v)@.contains(Some(x)),
        final(v)@ == blank_first(old(v)@, x),
{
    let mut i: usize = 0;
    while i < v.len()
        invariant
            i <= v@.len(),
            v@ == old(v)@,
            forall|k: int| 0 <= k < i ==> v@[k] != Some(x),
        decreases v@.len() - i,
    {
        let here = match v[i] {
            Some(c) => c == x,
            None => false,
        };
        if here {
            proof {
                lemma_blank_first_at(v@, x, i as int);
            }
            v.set(i, None);
            return true;
        }
        i = i + 1;
    }
    proof {
        lemma_blank_first_at(v@, x, i as int);
    }
    false
}

/// Hands out ids one after another: the current count, which then grows by
/// one.
pub fn next_id(counter: &mut u32) -> (r: u32)
    requires
        *old(counter) < u32::MAX,
    ensures
        r == *old(counter),
        *final(counter) == *old(counter) + 1,
{
    let r = *counter;
    *counter = *counter + 1;
    r
}

/// A new container, with the next id as its root id and no children.
pub fn create_container(counter: &mut u32) -> (r: NoopNode)
    requires
        *old(counter) < u32::MAX,
    ensures
        r.id == *old(counter),
        r.parent == -1,
        r.children@ == Seq::<Option<u32>>::empty(),
        *final(counter) == *old(counter) + 1,
{
    NoopNode { id: next_id(counter), parent: -1, children: Vec::new() }
}

/// A new instance or text node, with the next id, no parent and no children.
pub fn create_instance(counter: &mut u32) -> (r: NoopNode)
    requires
        *old(counter) < u32::MAX,
    ensures
        r.id == *old(counter),
        r.parent == -1,
        r.children@ == Seq::<Option<u32>>::empty(),
        *final(counter) == *old(counter) + 1,
{
    NoopNode { id: next_id(counter), parent: -1, children: Vec::new() }
}

/// Appends `child` to the children of `parent` while the tree is built. A
/// child that already has another parent cannot be mounted again.
pub fn append_initial_child(parent: &mut NoopNode, child: &mut NoopNode)
    requires
        old(child).parent == -1 || old(child).parent == old(parent).id,
    ensures
        final(child).parent == old(parent).id,
        final(child).id == old(child).id,
        final(child).children@ == old(child).children@,
        final(parent).id == old(parent).id,
        final(parent).parent == old(parent).parent,
        final(parent).children@ == old(parent).children@.push(Some(old(child).id)),
{
    child.parent = parent.id as i64;
    parent.children.push(Some(child.id));
}

/// Appends `child` as the last child of `container`; a place it had among
/// the children is left `undefined`. A child that has another parent cannot be mounted.
pub fn append_child_to_container(child: &mut NoopNode, container: &mut NoopNode)
    requires
        old(child).parent == -1 || old(child).parent == old(container).id,
    ensures
        final(child).parent == old(container).id,
        final(child).id == old(child).id,
        final(child).children@ == old(child).children@,
        final(container).id == old(container).id,
        final(container).parent == old(container).parent,
        final(container).children@ == blank_first(old(container).children@, old(child).id).push(Some(old(child).id)),
{
    child.parent = container.id as i64;
    blank_child(&mut container.children, child.id);
    container.children.push(Some(child.id));
}

/// Takes the child `child` (by id) out of `container`, which must hold it:
/// its place is left `undefined`.
pub fn remove_child(child: u32, container: &mut NoopNode)
    requires
        old(container).children@.contains(Some(child)),
    ensures
        final(container).id == old(container).id,
        final(container).parent == old(container).parent,
        final(container).children@ == blank_first(old(container).children@, child),
{
    blank_child(&mut container.children, child);
}

/// Moves the child `child` (by id) to `container`: a place it had among the
/// children is left `undefined`, and it is put last. The `before` child must not be
/// among the remaining children: the position of `before` is looked up and
/// only its absence lets the insertion go on, at the end of the children.
pub fn insert_child_to_container(child: u32, container: &mut NoopNode, before: u32)
    requires
        !blank_first(old(container).children@, child).contains(Some(before)),
    ensures
        final(container).id == old(container).id,
        final(container).parent == old(container).parent,
        final(container).children@ == blank_first(old(container).children@, child).push(Some(child)),
{
    blank_child(&mut container.children, child);
    container.children.push(Some(child));
}

/// A host node of the test renderer as its JSX rendering reads it: a text
/// node (its text, a handle) or an instance with its type and props
/// (handles) and its children in order.
#[derive(Debug, PartialEq, Eq)]
pub enum NoopChild {
    Text { text: u64 },
    Instance { type_handle: u64, props: u64, children: Vec<NoopChild> },
}

/// The JSX form of host nodes: `null`, a text, a list, or an element with
/// its type, its props (a handle) and the children set in those props, if
/// any.
#[derive(Debug, PartialEq, Eq)]
pub enum Jsx {
    Null,
    Text(u64),
    List(Vec<Jsx>),
    Element { type_handle: u64, props: u64, children: Option<Box<Jsx>> },
}

/// `j` is the JSX form of the host node `c`: a text node gives its text; an
/// instance gives an element of its type and props, whose children are the
/// JSX form of its children unless it has none.
pub open spec fn jsx_of(c: NoopChild, j: Jsx) -> bool
    decreases c, 2int,
{
    match c {
        NoopChild::Text { text } => j == Jsx::Text(text),
        NoopChild::Instance { type_handle, props, children } => match j {
            Jsx::Element { type_handle: t, props: p, children: ch } => {
                &&& t == type_handle
                &&& p == props
                &&& if children@.len() == 0 {
                    ch is None
                } else {
                    ch matches Some(b) && jsx_of_list(children@, *b)
                }
            },
            _ => false,
        },
    }
}

/// `j` is the JSX form of the list of host nodes `cs`: `null` for none, the
/// form of the node itself for one, and the list of their forms otherwise.
pub open spec fn jsx_of_list(cs: Seq<NoopChild>, j: Jsx) -> bool
    decreases cs, 1int,
{
    if cs.len() == 0 {
        j == Jsx::Null
    } else if cs.len() == 1 {
        jsx_of(cs[0], j)
    } else {
        match j {
            Jsx::List(v) => jsx_of_each(cs, v@),
            _ => false,
        }
    }
}

/// `v` holds the JSX forms of the host nodes `cs`, one for one.
pub open spec fn jsx_of_each(cs: Seq<NoopChild>, v: Seq<Jsx>) -> bool
    decreases cs, 0int,
{
    if cs.len() == 0 {
        v.len() == 0
    } else {
        &&& v.len() == cs.len()
        &&& jsx_of_each(cs.drop_last(), v.drop_last())
        &&& jsx_of(cs.last(), v.last())
    }
}

/// The JSX form of the host node `c` (see `jsx_of`).
pub fn child_to_jsx(c: &NoopChild) -> (r: Jsx)
    ensures
        jsx_of(*c, r),
    decreases *c, 2int,
{
    match c {
        NoopChild::Text { text } => Jsx::Text(*text),
        NoopChild::Instance { type_handle, props, children } => {
            let inner = children_to_jsx(children);
            let set = match inner {
                Jsx::Null => None,
                _ => Some(Box::new(inner)),
            };
            Jsx::Element { type_handle: *type_handle, props: *props, children: set }
        },
    }
}

/// The JSX form of a list of host nodes (see `jsx_of_list`).
pub fn children_to_jsx(cs: &Vec<NoopChild>) -> (r: Jsx)
    ensures
        jsx_of_list(cs@, r),
    decreases cs@, 1int,
{
    if cs.len() == 0 {
        return Jsx::Null;
    }
    if cs.len() == 1 {
        return child_to_jsx(&cs[0]);
    }
    let mut v: Vec<Jsx> = Vec::new();
    let mut i: usize = 0;
    while i < cs.len()
        invariant
            i <= cs@.len(),
            v@.len() == i,
            jsx_of_each(cs@.take(i as int), v@),
        decreases cs@.len() - i,
    {
        let j = child_to_jsx(&cs[i]);
        let ghost before = v@;
        v.push(j);
        proof {
            assert(cs@.take(i + 1).drop_last() =~= cs@.take(i as int));
            assert(v@.drop_last() =~= before);
        }
        i = i + 1;
    }
    assert(cs@.take(i as int) =~= cs@);
    Jsx::List(v)
}

/// What the test renderer shows of a container with children `cs`: their
/// JSX form, for at most one child (a list of them has no form yet).
pub fn get_children_as_jsx(cs: &Vec<NoopChild>) -> (r: Jsx)
    requires
        cs@.len() <= 1,
    ensures
        jsx_of_list(cs@, r),
{
    children_to_jsx(cs)
}

} // verus!
