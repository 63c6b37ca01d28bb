use vstd::prelude::*;
use crate::flags::Flags;
use crate::work_tags::WorkTag;
use crate::complete_work::FiberTree;
use crate::complete_work::is_host;
use crate::complete_work::tree_host_nodes;
use crate::complete_work::append_all_children;

verus! {

/// The commit goes below the fiber: it has children and its subtree has
/// flags of the phase (`mask`).
pub open spec fn commit_descends(t: FiberTree, mask: Flags) -> bool {
    t.children@.len() > 0 && t.subtree_flags@ & mask@ != 0
}

/// The fibers of `t` a commit phase visits, by id, in the order it visits
/// them: children before their parent, without going below a fiber whose
/// subtree has no flag of the phase.
pub open spec fn commit_order(t: FiberTree, mask: Flags) -> Seq<u32>
    decreases t, 1int,
{
    if commit_descends(t, mask) {
        commit_order_forest(t.children@, mask).push(t.id)
    } else {
        seq![t.id]
    }
}

/// The fibers the commit phase visits in the trees `ts`, in order.
pub open spec fn commit_order_forest(ts: Seq<FiberTree>, mask: Flags) -> Seq<u32>
    decreases ts, 0int,
{
    if ts.len() == 0 {
        Seq::empty()
    } else {
        commit_order_forest(ts.drop_last(), mask) + commit_order(ts.last(), mask)
    }
}

/// Appends to `out` the fibers the commit phase visits in the trees `ts`.
fn commit_forest(ts: &Vec<FiberTree>, mask: Flags, out: &mut Vec<u32>)
    ensures
        final(out)@ == old(out)@ + commit_order_forest(ts@, mask),
    decreases ts@, 0int,
{
    let mut i: usize = 0;
    while i < ts.len()
        invariant
            i <= ts@.len(),
            out@ == old(out)@ + commit_order_forest(ts@.take(i as int), mask),
        decreases ts@.len() - i,
    {
        let t = &ts[i];
        let ghost before = out@;
        proof {
            assert(ts@.take(i + 1).drop_last() =~= ts@.take(i as int));
            assert(ts@.take(i + 1).last() == *t);
            assert(commit_order_forest(ts@.take(i + 1), mask) == commit_order_forest(ts@.take(i as int), mask)
                + commit_order(*t, mask));
        }
        if t.children.len() > 0 && t.subtree_flags.intersects(&mask) {
            commit_forest(&t.children, mask, out);
            out.push(t.id);
            assert(out@ =~= before + commit_order(*t, mask));
        } else {
            out.push(t.id);
            assert(out@ =~= before + commit_order(*t, mask));
        }
        i = i + 1;
        assert(out@ =~= old(out)@ + commit_order_forest(ts@.take(i as int), mask));
    }
    assert(ts@.take(i as int) =~= ts@);
}

/// The fibers of the finished tree `finished_work` that a commit phase with
/// the flags `mask` visits, by id, in order: every fiber is visited after
/// its children, and the phase does not go below a fiber whose subtree has
/// none of the flags.
pub fn commit_effects(finished_work: &FiberTree, mask: Flags) -> (r: Vec<u32>)
    ensures
        r@ == commit_order(*finished_work, mask),
{
    let mut out: Vec<u32> = Vec::new();
    if finished_work.children.len() > 0 && finished_work.subtree_flags.intersects(&mask) {
        commit_forest(&finished_work.children, mask, &mut out);
    }
    out.push(finished_work.id);
    assert(out@ =~= commit_order(*finished_work, mask));
    out
}

/// What the mutation phase does on a fiber.
#[derive(Debug, Clone, Copy, PartialEq, Eq, Structural)]
pub struct MutationWork {
    /// Insert the fiber's host nodes into the host tree.
    pub placement: bool,
    /// Delete the children the fiber lost.
    pub deletions: bool,
    /// Update the fiber's host node.
    pub update: bool,
    /// Queue the fiber's passive effects.
    pub passive: bool,
    /// Detach the ref of the fiber's host element.
    pub detach_ref: bool,
}

/// The work of the mutation phase on a fiber with flags `flags`, and the
/// flags it keeps: placement, child deletion, update and passive effect are
/// done and cleared; a host element with a ref flag has its ref detached.
pub fn commit_mutation_effects_on_fiber(flags: Flags, tag: WorkTag) -> (r: (Flags, MutationWork))
    ensures
        r.1.placement == (flags@ & 0x1 != 0),
        r.1.deletions == (flags@ & 0x4 != 0),
        r.1.update == (flags@ & 0x2 != 0),
        r.1.passive == (flags@ & 0x8 != 0),
        r.1.detach_ref == (flags@ & 0x10 != 0 && tag == WorkTag::HostComponent),
        r.0@ == flags@ & !0xFu16,
{
    let work = MutationWork {
        placement: flags.contains(&Flags::placement()),
        deletions: flags.contains(&Flags::child_deletion()),
        update: flags.contains(&Flags::update()),
        passive: flags.intersects(&Flags::passive_effect()),
        detach_ref: flags.intersects(&Flags::ref_flag()) && tag == WorkTag::HostComponent,
    };
    let kept = flags.difference(&Flags::placement()).difference(&Flags::child_deletion()).difference(
        &Flags::update(),
    ).difference(&Flags::passive_effect());
    let ghost f = flags@;
    assert(f & 0x1u16 == 0x1u16 <==> f & 0x1u16 != 0) by (bit_vector);
    assert(f & 0x4u16 == 0x4u16 <==> f & 0x4u16 != 0) by (bit_vector);
    assert(f & 0x2u16 == 0x2u16 <==> f & 0x2u16 != 0) by (bit_vector);
    assert(f & !0x1u16 & !0x4u16 & !0x2u16 & !0x8u16 == f & !0xFu16) by (bit_vector);
    (kept, work)
}

/// The work of the layout phase on a fiber: a host element with a ref flag
/// has its ref attached and the flag cleared. Returns the flags it keeps and
/// whether to attach the ref.
pub fn commit_layout_effects_on_fiber(flags: Flags, tag: WorkTag) -> (r: (Flags, bool))
    ensures
        r.1 == (flags@ & 0x10 != 0 && tag == WorkTag::HostComponent),
        r.1 ==> r.0@ == flags@ & !0x10u16,
        !r.1 ==> r.0 == flags,
{
    if flags.intersects(&Flags::ref_flag()) && tag == WorkTag::HostComponent {
        return (flags.difference(&Flags::ref_flag()), true);
    }
    (flags, false)
}

/// The host nodes a placed fiber inserts into its host parent, in order:
/// its own node when it is a host fiber, else those nearest to it in its
/// subtree.
pub fn insert_or_append_placement_node_into_container(fiber: &FiberTree) -> (r: Vec<Option<u64>>)
    ensures
        r@ == tree_host_nodes(*fiber),
{
    if fiber.tag == WorkTag::HostComponent || fiber.tag == WorkTag::HostText {
        let mut r: Vec<Option<u64>> = Vec::new();
        r.push(fiber.state_node);
        assert(r@ =~= tree_host_nodes(*fiber));
        return r;
    }
    append_all_children(fiber)
}

/// The index, among the ancestors of a fiber given by their kinds from its
/// parent up, of its host parent: the nearest host element or host root.
pub fn get_host_parent(ancestor_tags: &Vec<WorkTag>) -> (r: Option<usize>)
    ensures
        r matches Some(i) ==> i < ancestor_tags@.len() && (ancestor_tags@[i as int] == WorkTag::HostComponent
            || ancestor_tags@[i as int] == WorkTag::HostRoot) && forall|k: int|
            0 <= k < i ==> #[trigger] ancestor_tags@[k] != WorkTag::HostComponent && ancestor_tags@[k]
                != WorkTag::HostRoot,
        r is None ==> forall|k: int|
            0 <= k < ancestor_tags@.len() ==> #[trigger] ancestor_tags@[k] != WorkTag::HostComponent
                && ancestor_tags@[k] != WorkTag::HostRoot,
{
    let mut i: usize = 0;
    while i < ancestor_tags.len()
        invariant
            i <= ancestor_tags@.len(),
            forall|k: int|
                0 <= k < i ==> #[trigger] ancestor_tags@[k] != WorkTag::HostComponent && ancestor_tags@[k]
                    != WorkTag::HostRoot,
        decreases ancestor_tags@.len() - i,
    {
        let tag = ancestor_tags[i];
        if tag == WorkTag::HostComponent || tag == WorkTag::HostRoot {
            return Some(i);
        }
        i = i + 1;
    }
    None
}

/// The fiber has the placement flag: its node moves in this commit.
pub open spec fn is_placed(t: FiberTree) -> bool {
    t.flags@ & 0x1 == 0x1
}

/// What the search for a host sibling finds in the subtree of `t`: a host
/// fiber that stays in place gives its node (`Some`); a host fiber being
/// placed, or another fiber being placed, gives nothing and is not entered;
/// any other fiber is searched through its children in order.
pub open spec fn host_in_tree(t: FiberTree) -> Option<Option<u64>>
    decreases t, 1int,
{
    if is_host(t.tag) {
        if is_placed(t) { None } else { Some(t.state_node) }
    } else if is_placed(t) {
        None
    } else {
        host_in_forest(t.children@)
    }
}

/// What the search finds in the fibers `ts`: the first find, in order.
pub open spec fn host_in_forest(ts: Seq<FiberTree>) -> Option<Option<u64>>
    decreases ts, 0int,
{
    if ts.len() == 0 {
        None
    } else {
        match host_in_forest(ts.drop_last()) {
            Some(x) => Some(x),
            None => host_in_tree(ts.last()),
        }
    }
}

/// What the search finds going up: in the fibers that follow the placed
/// fiber, then in those that follow each of its ancestors below its host
/// parent (`levels`, from the fiber up), the first find.
pub open spec fn host_in_levels(levels: Seq<Seq<FiberTree>>) -> Option<Option<u64>>
    decreases levels.len(),
{
    if levels.len() == 0 {
        None
    } else {
        match host_in_levels(levels.drop_last()) {
            Some(x) => Some(x),
            None => host_in_forest(levels.last()),
        }
    }
}

fn search_tree(t: &FiberTree) -> (r: Option<Option<u64>>)
    ensures
        r == host_in_tree(*t),
    decreases *t, 1int,
{
    let placed = t.flags.contains(&Flags::placement());
    if t.tag == WorkTag::HostComponent || t.tag == WorkTag::HostText {
        if placed { None } else { Some(t.state_node) }
    } else if placed {
        None
    } else {
        search_forest(&t.children)
    }
}

fn search_forest(ts: &Vec<FiberTree>) -> (r: Option<Option<u64>>)
    ensures
        r == host_in_forest(ts@),
    decreases ts@, 0int,
{
    let mut i: usize = 0;
    while i < ts.len()
        invariant
            i <= ts@.len(),
            host_in_forest(ts@.take(i as int)) is None,
        decreases ts@.len() - i,
    {
        proof {
            assert(ts@.take(i + 1).drop_last() =~= ts@.take(i as int));
            assert(ts@.take(i + 1).last() == ts@[i as int]);
        }
        let found = search_tree(&ts[i]);
        if found.is_some() {
            proof {
                lemma_forest_find_stays(ts@, i as int + 1);
            }
            return found;
        }
        i = i + 1;
    }
    assert(ts@.take(i as int) =~= ts@);
    None
}

/// A find in a prefix of the fibers is the find of all of them.
proof fn lemma_forest_find_stays(ts: Seq<FiberTree>, n: int)
    requires
        0 <= n <= ts.len(),
        host_in_forest(ts.take(n)) is Some,
    ensures
        host_in_forest(ts) == host_in_forest(ts.take(n)),
    decreases ts.len() - n,
{
    if n < ts.len() {
        assert(ts.take(n + 1).drop_last() =~= ts.take(n));
        lemma_forest_find_stays(ts, n + 1);
    } else {
        assert(ts.take(n) =~= ts);
    }
}

/// The host node before which a placed fiber is inserted: the node of the
/// first host fiber after it in tree order within its host parent that stays
/// in place. The search goes through the fibers that follow it among its
/// siblings, down into those that are no host fibers, then on through the
/// siblings that follow each ancestor up to its host parent (`levels`, from
/// the fiber up); it never enters nor stops at a fiber being placed. `None`
/// when there is no such fiber.
pub fn get_host_sibling(levels: &Vec<Vec<FiberTree>>) -> (r: Option<u64>)
    requires
        host_in_levels(levels@.map_values(|l: Vec<FiberTree>| l@)) matches Some(node) ==> node is Some,
    ensures
        r == (match host_in_levels(levels@.map_values(|l: Vec<FiberTree>| l@)) {
            Some(node) => node,
            None => None,
        }),
{
    let ghost ls = levels@.map_values(|l: Vec<FiberTree>| l@);
    let mut k: usize = 0;
    while k < levels.len()
        invariant
            k <= levels@.len(),
            ls == levels@.map_values(|l: Vec<FiberTree>| l@),
            host_in_levels(ls.take(k as int)) is None,
        decreases levels@.len() - k,
    {
        proof {
            assert(ls.take(k + 1).drop_last() =~= ls.take(k as int));
            assert(ls.take(k + 1).last() == levels@[k as int]@);
        }
        let found = search_forest(&levels[k]);
        if found.is_some() {
            proof {
                lemma_levels_find_stays(ls, k as int + 1);
            }
            return found.unwrap();
        }
        k = k + 1;
    }
    assert(ls.take(k as int) =~= ls);
    None
}

/// A find in the first levels is the find of all of them.
proof fn lemma_levels_find_stays(ls: Seq<Seq<FiberTree>>, n: int)
    requires
        0 <= n <= ls.len(),
        host_in_levels(ls.take(n)) is Some,
    ensures
        host_in_levels(ls) == host_in_levels(ls.take(n)),
    decreases ls.len() - n,
{
    if n < ls.len() {
        assert(ls.take(n + 1).drop_last() =~= ls.take(n));
        lemma_levels_find_stays(ls, n + 1);
    } else {
        assert(ls.take(n) =~= ls);
    }
}

/// The effects of a fiber's effect list whose tags have every flag of
/// `flags`, by index, in list order.
pub fn commit_hook_effect_list(flags: Flags, effect_tags: &Vec<Flags>) -> (r: Vec<usize>)
    ensures
        forall|k: int| 0 <= k < r@.len() ==> #[trigger] r@[k] < effect_tags@.len(),
        forall|k: int, l: int| 0 <= k < l < r@.len() ==> r@[k] < r@[l],
        forall|i: int|
            0 <= i < effect_tags@.len() ==> (r@.contains(i as usize) <==> (#[trigger] effect_tags@[i])@
                & flags@ == flags@),
{
    let mut r: Vec<usize> = Vec::new();
    let mut i: usize = 0;
    while i < effect_tags.len()
        invariant
            i <= effect_tags@.len(),
            forall|k: int| 0 <= k < r@.len() ==> #[trigger] r@[k] < i,
            forall|k: int, l: int| 0 <= k < l < r@.len() ==> r@[k] < r@[l],
            forall|j: int|
                0 <= j < i ==> (r@.contains(j as usize) <==> (#[trigger] effect_tags@[j])@ & flags@
                    == flags@),
        decreases effect_tags@.len() - i,
    {
        let ghost before = r@;
        if effect_tags[i].contains(&flags) {
            r.push(i);
        }
        proof {
            assert forall|j: int| 0 <= j < i + 1 implies (r@.contains(j as usize) <==> (
            #[trigger] effect_tags@[j])@ & flags@ == flags@) by {
                if j < i {
                    if before.contains(j as usize) {
                        let w = choose|w: int| 0 <= w < before.len() && before[w] == j as usize;
                        assert(r@[w] == j as usize);
                    }
                    if r@.contains(j as usize) {
                        let w = choose|w: int| 0 <= w < r@.len() && r@[w] == j as usize;
                        if w < before.len() {
                            assert(before[w] == j as usize);
                        }
                    }
                } else {
                    if effect_tags@[j]@ & flags@ == flags@ {
                        assert(r@[r@.len() - 1] == i);
                    } else if r@.contains(j as usize) {
                        let w = choose|w: int| 0 <= w < r@.len() && r@[w] == j as usize;
                        assert(before[w] < i);
                    }
                }
            }
        }
        i = i + 1;
    }
    r
}

/// A fiber met while unmounting a deleted subtree: its id, kind and host node.
pub type UnmountEntry = (u32, WorkTag, Option<u64>);

/// The fibers of a deleted subtree `t` in the order they are unmounted:
/// each fiber before its children.
pub open spec fn unmount_order(t: FiberTree) -> Seq<UnmountEntry>
    decreases t, 1int,
{
    seq![(t.id, t.tag, t.state_node)] + unmount_order_forest(t.children@)
}

/// The fibers of the trees `ts` in the order they are unmounted.
pub open spec fn unmount_order_forest(ts: Seq<FiberTree>) -> Seq<UnmountEntry>
    decreases ts, 0int,
{
    if ts.len() == 0 {
        Seq::empty()
    } else {
        unmount_order_forest(ts.drop_last()) + unmount_order(ts.last())
    }
}

/// Appends to `out` the fibers of the trees `ts` in unmount order.
fn unmount_forest(ts: &Vec<FiberTree>, out: &mut Vec<UnmountEntry>)
    ensures
        final(out)@ == old(out)@ + unmount_order_forest(ts@),
    decreases ts@, 0int,
{
    let mut i: usize = 0;
    while i < ts.len()
        invariant
            i <= ts@.len(),
            out@ == old(out)@ + unmount_order_forest(ts@.take(i as int)),
        decreases ts@.len() - i,
    {
        let t = &ts[i];
        let ghost before = out@;
        proof {
            assert(ts@.take(i + 1).drop_last() =~= ts@.take(i as int));
            assert(ts@.take(i + 1).last() == *t);
            assert(unmount_order_forest(ts@.take(i + 1)) == unmount_order_forest(ts@.take(i as int))
                + unmount_order(*t));
        }
        out.push((t.id, t.tag, t.state_node));
        unmount_forest(&t.children, out);
        assert(out@ =~= before + unmount_order(*t));
        i = i + 1;
        assert(out@ =~= old(out)@ + unmount_order_forest(ts@.take(i as int)));
    }
    assert(ts@.take(i as int) =~= ts@);
}

/// The fibers of a deleted subtree `t`, each with its id, kind and host
/// node, in the order they are unmounted: each fiber before its children.
pub fn commit_nested_unmounts(t: &FiberTree) -> (r: Vec<UnmountEntry>)
    ensures
        r@ == unmount_order(*t),
{
    let mut out: Vec<UnmountEntry> = Vec::new();
    out.push((t.id, t.tag, t.state_node));
    unmount_forest(&t.children, &mut out);
    assert(out@ =~= unmount_order(*t));
    out
}

/// A deleted subtree holds only kinds that a deletion knows how to unmount:
/// function components, host elements and host texts.
pub open spec fn unmountable(s: Seq<UnmountEntry>) -> bool {
    forall|i: int|
        0 <= i < s.len() ==> (#[trigger] s[i]).1 == WorkTag::FunctionComponent || s[i].1
            == WorkTag::HostComponent || s[i].1 == WorkTag::HostText
}

/// The host node of the first host fiber of `s` (`Some(None)` when that
/// fiber has no node), or `None` when `s` has no host fiber.
pub open spec fn first_host(s: Seq<UnmountEntry>) -> Option<Option<u64>>
    decreases s.len(),
{
    if s.len() == 0 {
        None
    } else if first_host(s.drop_last()) is Some {
        first_host(s.drop_last())
    } else if s.last().1 == WorkTag::HostComponent || s.last().1 == WorkTag::HostText {
        Some(s.last().2)
    } else {
        None
    }
}

/// The ids of the function components of `s`, in order.
pub open spec fn function_components(s: Seq<UnmountEntry>) -> Seq<u32>
    decreases s.len(),
{
    if s.len() == 0 {
        Seq::empty()
    } else if s.last().1 == WorkTag::FunctionComponent {
        function_components(s.drop_last()).push(s.last().0)
    } else {
        function_components(s.drop_last())
    }
}

/// What deleting a subtree does: the host node to remove from the host
/// parent (that of the first host fiber met; `Some(None)` when it has no
/// node), and the function components whose passive effects must be
/// unmounted, in order.
pub struct DeletionPlan {
    pub remove: Option<Option<u64>>,
    pub passive_unmounts: Vec<u32>,
}

/// Plans the deletion of the subtree `child_to_delete`.
pub fn commit_deletion(child_to_delete: &FiberTree) -> (r: DeletionPlan)
    requires
        unmountable(unmount_order(*child_to_delete)),
    ensures
        r.remove == first_host(unmount_order(*child_to_delete)),
        r.passive_unmounts@ == function_components(unmount_order(*child_to_delete)),
{
    let entries = commit_nested_unmounts(child_to_delete);
    let ghost s = entries@;
    let mut remove: Option<Option<u64>> = None;
    let mut passive: Vec<u32> = Vec::new();
    let mut i: usize = 0;
    while i < entries.len()
        invariant
            s == entries@,
            i <= s.len(),
            remove == first_host(s.take(i as int)),
            passive@ == function_components(s.take(i as int)),
        decreases s.len() - i,
    {
        let (id, tag, node) = entries[i];
        proof {
            assert(s.take(i + 1).drop_last() =~= s.take(i as int));
            assert(s.take(i + 1).last() == s[i as int]);
        }
        if tag == WorkTag::FunctionComponent {
            passive.push(id);
        }
        if remove.is_none() && (tag == WorkTag::HostComponent || tag == WorkTag::HostText) {
            remove = Some(node);
        }
        i = i + 1;
    }
    assert(s.take(i as int) =~= s);
    DeletionPlan { remove, passive_unmounts: passive }
}

/// Why the passive effects of a fiber are queued: it is unmounted, or it
/// was updated.
#[derive(Debug, Clone, Copy, PartialEq, Eq, Structural)]
pub enum PassiveKind {
    Unmount,
    Update,
}

/// Whether the effect list of a fiber is queued for the passive effects
/// flush: only a function component's, on unmount always, on update only
/// with the passive effect flag, and only when it has an effect list.
pub fn commit_passive_effect(tag: WorkTag, flags: Flags, kind: PassiveKind, has_effect_list: bool) -> (r: bool)
    ensures
        r == (tag == WorkTag::FunctionComponent && !(kind == PassiveKind::Update && flags@ & 0x8 == 0)
            && has_effect_list),
{
    if tag != WorkTag::FunctionComponent || (kind == PassiveKind::Update && !flags.intersects(
        &Flags::passive_effect(),
    )) {
        return false;
    }
    has_effect_list
}

/// The search through the fibers `a` then `b` finds what it finds in `a`,
/// else what it finds in `b`.
proof fn lemma_forest_concat(a: Seq<FiberTree>, b: Seq<FiberTree>)
    ensures
        host_in_forest(a + b) == (match host_in_forest(a) {
            Some(x) => Some(x),
            None => host_in_forest(b),
        }),
    decreases b.len(),
{
    if b.len() == 0 {
        assert(a + b =~= a);
    } else {
        lemma_forest_concat(a, b.drop_last());
        assert((a + b).drop_last() =~= a + b.drop_last());
        assert((a + b).last() == b.last());
    }
}

/// The host sibling search passes over a fiber that has the placement flag,
/// with everything below it: what it finds in `t` followed by `rest` is what
/// it finds in `rest` alone. So the node it gives is never that of a fiber
/// being placed, nor of one below a fiber being placed.
pub proof fn lemma_placed_fiber_is_passed_over(t: FiberTree, rest: Seq<FiberTree>)
    requires
        t.flags@ & 0x1 == 0x1,
    ensures
        host_in_forest(seq![t] + rest) == host_in_forest(rest),
{
    lemma_forest_concat(seq![t], rest);
    assert(seq![t].drop_last() =~= Seq::<FiberTree>::empty());
    assert(host_in_forest(Seq::<FiberTree>::empty()) is None);
    assert(seq![t].last() == t);
    assert(host_in_forest(seq![t]) == host_in_tree(t));
}

/// The host sibling search stops at the first host element or text that has
/// no placement flag: with such a fiber first, it gives that fiber's node,
/// whatever follows.
pub proof fn lemma_staying_host_fiber_is_found(t: FiberTree, rest: Seq<FiberTree>)
    requires
        t.tag == WorkTag::HostComponent || t.tag == WorkTag::HostText,
        t.flags@ & 0x1 != 0x1,
    ensures
        host_in_forest(seq![t] + rest) == Some(t.state_node),
{
    lemma_forest_concat(seq![t], rest);
    assert(seq![t].drop_last() =~= Seq::<FiberTree>::empty());
    assert(host_in_forest(Seq::<FiberTree>::empty()) is None);
    assert(seq![t].last() == t);
    assert(host_in_forest(seq![t]) == host_in_tree(t));
}

/// Going up, the search looks at the siblings of an ancestor only when
/// nothing was found among the fibers of the levels below it.
pub proof fn lemma_levels_first_find(l: Seq<FiberTree>, ls: Seq<Seq<FiberTree>>)
    ensures
        host_in_levels(seq![l] + ls) == (match host_in_forest(l) {
            Some(x) => Some(x),
            None => host_in_levels(ls),
        }),
    decreases ls.len(),
{
    if ls.len() == 0 {
        assert(seq![l] + ls =~= seq![l]);
        assert(seq![l].drop_last() =~= Seq::<Seq<FiberTree>>::empty());
        assert(host_in_levels(Seq::<Seq<FiberTree>>::empty()) is None);
        assert(seq![l].last() == l);
        assert(host_in_levels(seq![l]) == host_in_forest(l));
    } else {
        lemma_levels_first_find(l, ls.drop_last());
        assert((seq![l] + ls).drop_last() =~= seq![l] + ls.drop_last());
        assert((seq![l] + ls).last() == ls.last());
        assert(host_in_levels(ls) == (match host_in_levels(ls.drop_last()) {
            Some(x) => Some(x),
            None => host_in_forest(ls.last()),
        }));
    }
}

/// The host sibling search goes down into a fiber that is neither a host
/// fiber nor being placed: what it finds in `t` followed by `rest` is what it
/// finds among `t`'s children, else what it finds in `rest`.
pub proof fn lemma_search_enters_other_fibers(t: FiberTree, rest: Seq<FiberTree>)
    requires
        t.tag != WorkTag::HostComponent,
        t.tag != WorkTag::HostText,
        t.flags@ & 0x1 != 0x1,
    ensures
        host_in_forest(seq![t] + rest) == (match host_in_forest(t.children@) {
            Some(x) => Some(x),
            None => host_in_forest(rest),
        }),
{
    lemma_forest_concat(seq![t], rest);
    assert(seq![t].drop_last() =~= Seq::<FiberTree>::empty());
    assert(host_in_forest(Seq::<FiberTree>::empty()) is None);
    assert(seq![t].last() == t);
    assert(host_in_forest(seq![t]) == host_in_tree(t));
}

} // verus!
