use vstd::prelude::*;
use crate::flags::Flags;

verus! {

/// The dependencies of an effect, memo or callback: `None` when there are
/// none (`null` or `undefined`), otherwise the handles of the values, where
/// `None` stands for `undefined` and equal handles are the same value.
pub type HookDeps = Option<Vec<Option<u64>>>;

/// The dependency at index `i`, `undefined` past the end.
pub open spec fn dep_at(deps: Seq<Option<u64>>, i: int) -> Option<u64> {
    if 0 <= i < deps.len() {
        deps[i]
    } else {
        None
    }
}

/// Dependencies are unchanged: both are given and every entry of the new
/// ones is the same value as the entry at that index of the old ones.
pub open spec fn same_inputs(next_deps: Option<Seq<Option<u64>>>, pre_deps: Option<Seq<Option<u64>>>) -> bool {
    match (next_deps, pre_deps) {
        (Some(n), Some(p)) => forall|i: int| 0 <= i < n.len() ==> dep_at(p, i) == n[i],
        _ => false,
    }
}

/// The view of dependencies as sequences.
pub open spec fn deps_view(deps: HookDeps) -> Option<Seq<Option<u64>>> {
    match deps {
        Some(d) => Some(d@),
        None => None,
    }
}

/// Whether the dependencies of a hook are unchanged since the last render.
pub fn are_hook_inputs_equal(next_deps: &HookDeps, pre_deps: &HookDeps) -> (r: bool)
    ensures
        r == same_inputs(deps_view(*next_deps), deps_view(*pre_deps)),
{
    let next = match next_deps {
        Some(n) => n,
        None => {
            return false;
        },
    };
    let pre = match pre_deps {
        Some(p) => p,
        None => {
            return false;
        },
    };
    assert(deps_view(*next_deps) == Some(next@));
    assert(deps_view(*pre_deps) == Some(pre@));
    let len = next.len();
    let mut i: usize = 0;
    while i < len
        invariant
            deps_view(*next_deps) == Some(next@),
            deps_view(*pre_deps) == Some(pre@),
            len == next@.len(),
            i <= len,
            forall|j: int| 0 <= j < i ==> dep_at(pre@, j) == next@[j],
        decreases len - i,
    {
        let previous = if i < pre.len() {
            pre[i]
        } else {
            None
        };
        if previous == next[i] {
            i = i + 1;
            continue;
        }
        assert(dep_at(pre@, i as int) != next@[i as int]);
        return false;
    }
    true
}

/// The tag of an effect pushed by `useEffect` on update, and whether the
/// fiber gets passive effect work: with unchanged dependencies the effect is
/// passive only and needs no work; otherwise it has an effect to run.
pub fn update_effect_tag(next_deps: &HookDeps, prev_deps: &HookDeps) -> (r: (Flags, bool))
    ensures
        ({
            let unchanged = next_deps is Some && same_inputs(deps_view(*prev_deps), deps_view(*next_deps));
            &&& unchanged ==> r.0@ == 0x2 && !r.1
            &&& !unchanged ==> r.0@ == 0x3 && r.1
        }),
{
    if next_deps.is_some() {
        if are_hook_inputs_equal(prev_deps, next_deps) {
            return (Flags::passive(), false);
        }
    }
    let tag = Flags::passive().union(&Flags::hook_has_effect());
    assert(0x2u16 | 0x1u16 == 0x3u16) by (bit_vector);
    (tag, true)
}

/// The tag of an effect pushed by `useEffect` on mount: passive, with an
/// effect to run.
pub fn mount_effect_tag() -> (r: Flags)
    ensures
        r@ == 0x3,
{
    let tag = Flags::passive().union(&Flags::hook_has_effect());
    assert(0x2u16 | 0x1u16 == 0x3u16) by (bit_vector);
    tag
}

/// Whether `useMemo` and `useCallback` keep their memoized value on update:
/// when dependencies are given and unchanged.
pub fn reuses_memoized(next_deps: &HookDeps, prev_deps: &HookDeps) -> (r: bool)
    ensures
        r == (next_deps is Some && same_inputs(deps_view(*next_deps), deps_view(*prev_deps))),
{
    if next_deps.is_some() {
        return are_hook_inputs_equal(next_deps, prev_deps);
    }
    false
}

/// Dependencies given as an array are unchanged when compared with
/// themselves.
pub proof fn lemma_same_inputs_reflexive(deps: Seq<Option<u64>>)
    ensures
        same_inputs(Some(deps), Some(deps)),
{
}

} // verus!
