use vstd::prelude::*;
use crate::flags::Flags;
use crate::lanes::Lane;
use crate::lanes::merge_lanes;
use crate::work_tags::WorkTag;

verus! {

/// What a completed fiber hands up to its parent: its own flags and lanes
/// and those of its subtree.
#[derive(Debug, Clone, Copy, PartialEq, Eq, Structural)]
pub struct ChildSummary {
    pub flags: Flags,
    pub subtree_flags: Flags,
    pub lanes: Lane,
    pub child_lanes: Lane,
}

/// The flags of the subtrees of `children`: each child's subtree flags and
/// own flags, in order.
pub open spec fn subtree_flag_bits(children: Seq<ChildSummary>) -> u16
    decreases children.len(),
{
    if children.len() == 0 {
        0
    } else {
        let c = children.last();
        (subtree_flag_bits(children.drop_last()) | c.subtree_flags@) | c.flags@
    }
}

/// The lanes of the subtrees of `children`: each child's lanes and child
/// lanes, in order.
pub open spec fn child_lane_bits(children: Seq<ChildSummary>) -> u32
    decreases children.len(),
{
    if children.len() == 0 {
        0
    } else {
        let c = children.last();
        child_lane_bits(children.drop_last()) | (c.lanes@ | c.child_lanes@)
    }
}

/// Gathers into a completed fiber the flags and lanes of its children's
/// subtrees: they are added to its subtree flags and child lanes.
pub fn bubble_properties(subtree_flags: &mut Flags, child_lanes: &mut Lane, children: &Vec<ChildSummary>)
    ensures
        final(subtree_flags)@ == old(subtree_flags)@ | subtree_flag_bits(children@),
        final(child_lanes)@ == old(child_lanes)@ | child_lane_bits(children@),
{
    let mut flags = Flags::no_flags();
    let mut lanes = Lane::no_lane();
    let mut i: usize = 0;
    while i < children.len()
        invariant
            i <= children@.len(),
            flags@ == subtree_flag_bits(children@.take(i as int)),
            lanes@ == child_lane_bits(children@.take(i as int)),
        decreases children@.len() - i,
    {
        let c = children[i];
        proof {
            assert(children@.take(i + 1).drop_last() =~= children@.take(i as int));
        }
        flags = flags.union(&c.subtree_flags);
        flags = flags.union(&c.flags);
        lanes = merge_lanes(lanes, merge_lanes(c.lanes, c.child_lanes));
        i = i + 1;
    }
    proof {
        assert(children@.take(i as int) =~= children@);
    }
    *subtree_flags = subtree_flags.union(&flags);
    *child_lanes = merge_lanes(*child_lanes, lanes);
}

/// What the host must do to complete a fiber, besides gathering its
/// children's flags and lanes.
#[derive(Debug, Clone, Copy, PartialEq, Eq, Structural)]
pub enum CompleteAction {
    /// Nothing.
    Nothing,
    /// Create the host element of the fiber and append to it the host nodes
    /// of its subtree.
    CreateInstance,
    /// Create the text node of the fiber.
    CreateTextInstance,
    /// Leave the context provider of the fiber.
    PopProvider,
}

/// What completing a fiber reads of it.
#[derive(Debug, Clone, Copy, PartialEq, Eq, Structural)]
pub struct CompleteInput {
    pub tag: WorkTag,
    /// The fiber has a current fiber and a host node already.
    pub has_current_and_node: bool,
    /// The fiber's ref is not the one of its current fiber.
    pub ref_changed: bool,
    /// The fiber's ref is not `null`.
    pub has_ref: bool,
    /// The text of a host text fiber is not the one of its current fiber.
    pub text_changed: bool,
    /// The text of a host text fiber (a handle), read from its pending props.
    pub content: u64,
}

/// The flags a fiber with flags `flags` has once it completed: a host
/// element that exists already gets a ref flag when its ref changed; a new
/// one gets a ref flag when it has a ref; a host text that exists already
/// gets an update flag when its text changed.
pub open spec fn complete_flags(input: CompleteInput, flags: u16) -> u16 {
    match input.tag {
        WorkTag::HostComponent => if input.has_current_and_node {
            if input.ref_changed { flags | 0x10u16 } else { flags }
        } else {
            if input.has_ref { flags | 0x10u16 } else { flags }
        },
        WorkTag::HostText => if input.has_current_and_node && input.text_changed {
            flags | 0x2u16
        } else {
            flags
        },
        _ => flags,
    }
}

/// What the host must do to complete a fiber: create the host element of a
/// new host element fiber, the text node of a new host text fiber, leave a
/// context provider, or nothing.
pub open spec fn complete_action(input: CompleteInput) -> CompleteAction {
    match input.tag {
        WorkTag::HostComponent => if input.has_current_and_node {
            CompleteAction::Nothing
        } else {
            CompleteAction::CreateInstance
        },
        WorkTag::HostText => if input.has_current_and_node {
            CompleteAction::Nothing
        } else {
            CompleteAction::CreateTextInstance
        },
        WorkTag::ContextProvider => CompleteAction::PopProvider,
        _ => CompleteAction::Nothing,
    }
}

/// The flags a fiber gets when it completes, and what the host must do.
pub fn complete_step(input: CompleteInput, flags: Flags) -> (r: (Flags, CompleteAction))
    ensures
        r.0@ == complete_flags(input, flags@),
        r.1 == complete_action(input),
{
    match input.tag {
        WorkTag::HostComponent => {
            if input.has_current_and_node {
                if input.ref_changed {
                    return (flags.union(&Flags::ref_flag()), CompleteAction::Nothing);
                }
                (flags, CompleteAction::Nothing)
            } else {
                if input.has_ref {
                    return (flags.union(&Flags::ref_flag()), CompleteAction::CreateInstance);
                }
                (flags, CompleteAction::CreateInstance)
            }
        },
        WorkTag::HostText => {
            if input.has_current_and_node {
                if input.text_changed {
                    return (flags.union(&Flags::update()), CompleteAction::Nothing);
                }
                (flags, CompleteAction::Nothing)
            } else {
                (flags, CompleteAction::CreateTextInstance)
            }
        },
        WorkTag::ContextProvider => (flags, CompleteAction::PopProvider),
        _ => (flags, CompleteAction::Nothing),
    }
}

/// A fiber and its subtree: its id, its kind, the handle of its type (the
/// element type of a host element), its host node (a handle), its pending
/// props and the props it was last rendered with (handles; equal handles
/// are the same object), its flags and those of its subtree, its
/// lanes and those of its subtree, the id of its alternate (the fiber of the
/// other tree it pairs with), and its children in order.
pub struct FiberTree {
    pub id: u32,
    pub tag: WorkTag,
    pub type_handle: u64,
    pub state_node: Option<u64>,
    pub pending_props: u64,
    pub memoized_props: u64,
    pub flags: Flags,
    pub subtree_flags: Flags,
    pub lanes: Lane,
    pub child_lanes: Lane,
    pub alternate: Option<u32>,
    pub children: Vec<FiberTree>,
}

/// Host elements and host texts are the nodes that are appended.
pub open spec fn is_host(tag: WorkTag) -> bool {
    tag == WorkTag::HostComponent || tag == WorkTag::HostText
}

/// The host nodes to append for the fiber `t`: its own node when it is a
/// host fiber, else those of its children.
pub open spec fn tree_host_nodes(t: FiberTree) -> Seq<Option<u64>>
    decreases t, 1int,
{
    if is_host(t.tag) {
        seq![t.state_node]
    } else {
        forest_host_nodes(t.children@)
    }
}

/// The host nodes to append for the fibers `ts`, in order.
pub open spec fn forest_host_nodes(ts: Seq<FiberTree>) -> Seq<Option<u64>>
    decreases ts, 0int,
{
    if ts.len() == 0 {
        Seq::empty()
    } else {
        forest_host_nodes(ts.drop_last()) + tree_host_nodes(ts.last())
    }
}

/// Appends to `out` the host nodes of the fibers `ts`, in order: the node of
/// each host fiber, and for any other fiber those of its children, without
/// going below a host fiber.
fn append_forest(ts: &Vec<FiberTree>, out: &mut Vec<Option<u64>>)
    ensures
        final(out)@ == old(out)@ + forest_host_nodes(ts@),
    decreases ts@, 0int,
{
    let mut i: usize = 0;
    while i < ts.len()
        invariant
            i <= ts@.len(),
            out@ == old(out)@ + forest_host_nodes(ts@.take(i as int)),
        decreases ts@.len() - i,
    {
        let t = &ts[i];
        let ghost before = out@;
        proof {
            assert(ts@.take(i + 1).drop_last() =~= ts@.take(i as int));
            assert(ts@.take(i + 1).last() == *t);
            assert(forest_host_nodes(ts@.take(i + 1)) == forest_host_nodes(ts@.take(i as int))
                + tree_host_nodes(*t));
        }
        if t.tag == WorkTag::HostComponent || t.tag == WorkTag::HostText {
            out.push(t.state_node);
            assert(out@ =~= before + tree_host_nodes(*t));
        } else {
            append_forest(&t.children, out);
            assert(out@ =~= before + tree_host_nodes(*t));
        }
        i = i + 1;
        assert(out@ =~= old(out)@ + forest_host_nodes(ts@.take(i as int)));
    }
    assert(ts@.take(i as int) =~= ts@);
}

/// The host nodes to append to the new host element of `work_in_progress`,
/// in order: those of its subtree that are nearest to it (a `None` is a host
/// fiber without a node).
pub fn append_all_children(work_in_progress: &FiberTree) -> (r: Vec<Option<u64>>)
    ensures
        r@ == forest_host_nodes(work_in_progress.children@),
{
    let mut out: Vec<Option<u64>> = Vec::new();
    append_forest(&work_in_progress.children, &mut out);
    assert(out@ =~= forest_host_nodes(work_in_progress.children@));
    out
}

/// What a fiber hands up to its parent.
pub open spec fn summary(t: FiberTree) -> ChildSummary {
    ChildSummary { flags: t.flags, subtree_flags: t.subtree_flags, lanes: t.lanes, child_lanes: t.child_lanes }
}

/// What the children `ts` hand up, in order.
pub open spec fn summaries(ts: Seq<FiberTree>) -> Seq<ChildSummary> {
    ts.map_values(|t: FiberTree| summary(t))
}

/// What the children `ts` hand up, in order.
fn child_summaries(ts: &Vec<FiberTree>) -> (r: Vec<ChildSummary>)
    ensures
        r@ == summaries(ts@),
{
    let mut r: Vec<ChildSummary> = Vec::new();
    let mut i: usize = 0;
    while i < ts.len()
        invariant
            i <= ts@.len(),
            r@ == summaries(ts@.take(i as int)),
        decreases ts@.len() - i,
    {
        let t = &ts[i];
        r.push(ChildSummary { flags: t.flags, subtree_flags: t.subtree_flags, lanes: t.lanes, child_lanes: t.child_lanes });
        i = i + 1;
        assert(r@ =~= summaries(ts@.take(i as int)));
    }
    assert(ts@.take(i as int) =~= ts@);
    r
}

/// Completes the fiber `wip`, whose children are complete, as `input`
/// describes it. The fiber takes its completed flags; a new host element gets
/// the element the host creates for its type and pending props
/// (`create_instance`), and a new host text the text node the host creates
/// for its text (`create_text_instance`), as its host node; and the flags
/// and lanes of its children's subtrees are added to its subtree flags and
/// child lanes. Returns the host nodes to append to a new host element, in
/// order (none for any other fiber).
pub fn complete_work<F: Fn(u64, u64) -> u64, G: Fn(u64) -> u64>(
    wip: &mut FiberTree,
    input: CompleteInput,
    create_instance: &F,
    create_text_instance: &G,
) -> (r: Vec<Option<u64>>)
    requires
        forall|type_handle: u64, props: u64| create_instance.requires((type_handle, props)),
        forall|content: u64| create_text_instance.requires((content,)),
        input.tag == old(wip).tag,
        input.has_current_and_node == (old(wip).alternate is Some && old(wip).state_node is Some),
    ensures
        final(wip).id == old(wip).id,
        final(wip).tag == old(wip).tag,
        final(wip).type_handle == old(wip).type_handle,
        final(wip).pending_props == old(wip).pending_props,
        final(wip).memoized_props == old(wip).memoized_props,
        final(wip).lanes == old(wip).lanes,
        final(wip).alternate == old(wip).alternate,
        final(wip).children@ == old(wip).children@,
        final(wip).flags@ == complete_flags(input, old(wip).flags@),
        final(wip).subtree_flags@ == old(wip).subtree_flags@ | subtree_flag_bits(summaries(old(wip).children@)),
        final(wip).child_lanes@ == old(wip).child_lanes@ | child_lane_bits(summaries(old(wip).children@)),
        complete_action(input) == CompleteAction::CreateInstance ==> final(wip).state_node is Some
            && create_instance.ensures((old(wip).type_handle, old(wip).pending_props), final(wip).state_node.unwrap())
            && r@ == forest_host_nodes(old(wip).children@),
        complete_action(input) == CompleteAction::CreateTextInstance ==> final(wip).state_node is Some
            && create_text_instance.ensures((input.content,), final(wip).state_node.unwrap()) && r@.len() == 0,
        complete_action(input) != CompleteAction::CreateInstance && complete_action(input)
            != CompleteAction::CreateTextInstance ==> final(wip).state_node == old(wip).state_node
            && r@.len() == 0,
{
    let (flags, action) = complete_step(input, wip.flags);
    wip.flags = flags;
    let mut appended: Vec<Option<u64>> = Vec::new();
    match action {
        CompleteAction::CreateInstance => {
            let node = create_instance(wip.type_handle, wip.pending_props);
            appended = append_all_children(wip);
            wip.state_node = Some(node);
        },
        CompleteAction::CreateTextInstance => {
            let node = create_text_instance(input.content);
            wip.state_node = Some(node);
        },
        _ => {},
    }
    let children = child_summaries(&wip.children);
    let mut subtree_flags = wip.subtree_flags;
    let mut child_lanes = wip.child_lanes;
    bubble_properties(&mut subtree_flags, &mut child_lanes, &children);
    wip.subtree_flags = subtree_flags;
    wip.child_lanes = child_lanes;
    appended
}

/// Completing a fiber only adds flags, and only these: the ref flag on a host
/// element (a new one with a ref, an existing one whose ref changed) and the
/// update flag on an existing host text whose text changed. A new host
/// element or text gets a host node created; nothing else does.
pub proof fn lemma_completion_flags(input: CompleteInput, flags: u16)
    ensures
        complete_flags(input, flags) & flags == flags,
        complete_flags(input, flags) & !flags & !0x12u16 == 0,
        input.tag == WorkTag::HostComponent && (if input.has_current_and_node { input.ref_changed } else { input.has_ref })
            ==> complete_flags(input, flags) & 0x10 == 0x10,
        input.tag == WorkTag::HostText && input.has_current_and_node && input.text_changed ==> complete_flags(
            input,
            flags,
        ) & 0x2 == 0x2,
        input.tag != WorkTag::HostComponent && input.tag != WorkTag::HostText ==> complete_flags(input, flags)
            == flags,
        (complete_action(input) == CompleteAction::CreateInstance) == (input.tag == WorkTag::HostComponent
            && !input.has_current_and_node),
        (complete_action(input) == CompleteAction::CreateTextInstance) == (input.tag == WorkTag::HostText
            && !input.has_current_and_node),
{
    assert((flags | 0x10u16) & flags == flags) by (bit_vector);
    assert((flags | 0x2u16) & flags == flags) by (bit_vector);
    assert(flags & flags == flags) by (bit_vector);
    assert((flags | 0x10u16) & !flags & !0x12u16 == 0) by (bit_vector);
    assert((flags | 0x2u16) & !flags & !0x12u16 == 0) by (bit_vector);
    assert(flags & !flags & !0x12u16 == 0) by (bit_vector);
    assert((flags | 0x10u16) & 0x10 == 0x10) by (bit_vector);
    assert((flags | 0x2u16) & 0x2 == 0x2) by (bit_vector);
}

} // verus!
