use vstd::prelude::*;
use crate::lanes::Lane;
use crate::lanes::merge_lanes;
use crate::update_queue::Update;
use crate::update_queue::UpdateQueue;
use crate::update_queue::create_update_queue;
use crate::update_queue::process_update_queue;
use crate::update_queue::processed;
use crate::update_queue::last_applied;
use crate::update_queue::first_skip_bounds;
use crate::flags::Flags;
use crate::hooks::HookDeps;
use crate::hooks::deps_view;
use crate::hooks::same_inputs;

verus! {

/// A hook of a function component, in the order of the calls that made it.
/// A state hook keeps its state, the state its pending work starts from,
/// and the updates it skipped; other hooks keep their value (an effect, a
/// memoized value, a ref object) as `memoized_state`. Values are handles of
/// JavaScript values.
pub struct Hook {
    pub memoized_state: Option<u64>,
    pub base_state: Option<u64>,
    pub base_queue: Vec<Update>,
}

/// A hook as plain values.
#[verifier::ext_equal]
pub struct HookView {
    pub memoized_state: Option<u64>,
    pub base_state: Option<u64>,
    pub base_queue: Seq<Update>,
}

impl View for Hook {
    type V = HookView;

    open spec fn view(&self) -> HookView {
        HookView {
            memoized_state: self.memoized_state,
            base_state: self.base_state,
            base_queue: self.base_queue@,
        }
    }
}

/// The hooks of a fiber as plain values.
pub open spec fn hooks_view(hooks: Seq<Hook>) -> Seq<HookView> {
    hooks.map_values(|h: Hook| h@)
}

/// Where the render of a function component stands in its hook lists: the
/// hook of the current fiber and the hook of the fiber being rendered that
/// the last hook call used, by index.
pub struct HookCursor {
    pub current_hook: Option<usize>,
    pub work_in_progress_hook: Option<usize>,
}

impl HookCursor {
    /// No hook has been called yet.
    pub fn new() -> (r: HookCursor)
        ensures
            r.current_hook is None,
            r.work_in_progress_hook is None,
    {
        HookCursor { current_hook: None, work_in_progress_hook: None }
    }
}

/// The hook after `at` in a list of `len` hooks: the first one when no hook
/// was used yet, `None` past the end.
pub open spec fn next_hook(at: Option<usize>, len: nat) -> Option<usize> {
    match at {
        None => if len > 0 { Some(0usize) } else { None },
        Some(i) => if i + 1 < len { Some((i + 1) as usize) } else { None },
    }
}

/// The cursor points into the hook lists.
pub open spec fn cursor_in(cursor: HookCursor, current_len: nat, wip_len: nat) -> bool {
    &&& cursor.current_hook matches Some(i) ==> i < current_len
    &&& cursor.work_in_progress_hook matches Some(j) ==> j < wip_len
}

/// The hook the next hook call of an update render uses, before it does
/// anything with it: the next hook of the fiber being rendered when it has
/// one, else a copy of the next hook of the current fiber.
pub open spec fn next_wip_hook(current: Seq<HookView>, wip: Seq<HookView>, cursor: HookCursor) -> HookView {
    match next_hook(cursor.work_in_progress_hook, wip.len()) {
        Some(j) => wip[j as int],
        None => current[next_hook(cursor.current_hook, current.len()).unwrap() as int],
    }
}

/// A copy of `updates`.
fn copy_updates(updates: &Vec<Update>) -> (r: Vec<Update>)
    ensures
        r@ == updates@,
{
    let mut r: Vec<Update> = Vec::new();
    let mut i: usize = 0;
    while i < updates.len()
        invariant
            i <= updates@.len(),
            r@ == updates@.take(i as int),
        decreases updates@.len() - i,
    {
        r.push(updates[i]);
        i = i + 1;
        assert(r@ =~= updates@.take(i as int));
    }
    assert(r@ =~= updates@);
    r
}

/// A copy of `hook`.
fn copy_hook(hook: &Hook) -> (r: Hook)
    ensures
        r@ == hook@,
{
    Hook {
        memoized_state: hook.memoized_state,
        base_state: hook.base_state,
        base_queue: copy_updates(&hook.base_queue),
    }
}

/// The hooks of the fiber being rendered that a new hook is added after:
/// none when no hook was used yet, else those up to the last one used.
pub open spec fn kept_hooks(wip: Seq<HookView>, at: Option<usize>) -> Seq<HookView> {
    match at {
        None => Seq::empty(),
        Some(j) => wip.take(j + 1),
    }
}

/// Adds a new empty hook for a hook call of a first render, right after
/// the last hook used (as the first hook when none was used). Returns its
/// index.
pub fn mount_work_in_progress_hook(wip_hooks: &mut Vec<Hook>, cursor: &mut HookCursor) -> (r: usize)
    requires
        old(cursor).work_in_progress_hook matches Some(j) ==> j < old(wip_hooks)@.len(),
        old(wip_hooks)@.len() < usize::MAX,
    ensures
        ({
            let kept = kept_hooks(hooks_view(old(wip_hooks)@), old(cursor).work_in_progress_hook);
            &&& r == kept.len()
            &&& hooks_view(final(wip_hooks)@) == kept.push(
                HookView { memoized_state: None, base_state: None, base_queue: Seq::empty() },
            )
        }),
        final(cursor).work_in_progress_hook == Some(r),
        final(cursor).current_hook == old(cursor).current_hook,
{
    match cursor.work_in_progress_hook {
        None => {
            wip_hooks.truncate(0);
        },
        Some(j) => {
            wip_hooks.truncate(j + 1);
        },
    }
    let ghost before = wip_hooks@;
    proof {
        assert(hooks_view(before) =~= kept_hooks(hooks_view(old(wip_hooks)@), old(cursor).work_in_progress_hook));
    }
    let r = wip_hooks.len();
    wip_hooks.push(Hook { memoized_state: None, base_state: None, base_queue: Vec::new() });
    cursor.work_in_progress_hook = Some(r);
    proof {
        assert(hooks_view(wip_hooks@) =~= hooks_view(before).push(
            HookView { memoized_state: None, base_state: None, base_queue: Seq::empty() },
        ));
    }
    r
}

/// Moves to the hook of the next hook call of an update render. The hook of
/// the fiber being rendered is reused when it has one; otherwise a copy of
/// the next hook of the current fiber is added. Returns the index of the hook
/// to use.
pub fn update_work_in_progress_hook(
    current_hooks: &Vec<Hook>,
    wip_hooks: &mut Vec<Hook>,
    cursor: &mut HookCursor,
) -> (r: usize)
    requires
        cursor_in(*old(cursor), current_hooks@.len(), old(wip_hooks)@.len()),
        next_hook(old(cursor).work_in_progress_hook, old(wip_hooks)@.len()) is None ==> next_hook(
            old(cursor).current_hook,
            current_hooks@.len(),
        ) is Some,
        old(wip_hooks)@.len() < usize::MAX,
    ensures
        ({
            let nw = next_hook(old(cursor).work_in_progress_hook, old(wip_hooks)@.len());
            let nc = next_hook(old(cursor).current_hook, current_hooks@.len());
            &&& final(cursor).current_hook == nc
            &&& final(cursor).work_in_progress_hook == Some(r)
            &&& nw is Some ==> r == nw.unwrap() && final(wip_hooks)@ == old(wip_hooks)@
            &&& nw is None ==> r == old(wip_hooks)@.len() && hooks_view(final(wip_hooks)@)
                == hooks_view(old(wip_hooks)@).push(current_hooks@[nc.unwrap() as int]@)
            &&& r < final(wip_hooks)@.len()
            &&& final(wip_hooks)@[r as int]@ == next_wip_hook(
                hooks_view(current_hooks@),
                hooks_view(old(wip_hooks)@),
                *old(cursor),
            )
        }),
{
    let next_current: Option<usize> = match cursor.current_hook {
        None => if current_hooks.len() > 0 { Some(0) } else { None },
        Some(i) => {
            assert(i < current_hooks@.len());
            if i < current_hooks.len() - 1 { Some(i + 1) } else { None }
        },
    };
    let next_wip: Option<usize> = match cursor.work_in_progress_hook {
        None => if wip_hooks.len() > 0 { Some(0) } else { None },
        Some(j) => {
            assert(j < wip_hooks@.len());
            if j < wip_hooks.len() - 1 { Some(j + 1) } else { None }
        },
    };
    cursor.current_hook = next_current;
    match next_wip {
        Some(j) => {
            cursor.work_in_progress_hook = Some(j);
            j
        },
        None => {
            let i = next_current.unwrap();
            let hook = copy_hook(&current_hooks[i]);
            let r = wip_hooks.len();
            wip_hooks.push(hook);
            cursor.work_in_progress_hook = Some(r);
            proof {
                assert(hooks_view(wip_hooks@) =~= hooks_view(old(wip_hooks)@).push(current_hooks@[i as int]@));
            }
            r
        },
    }
}

/// The hooks of the fiber being rendered once the next hook call moved to
/// its hook: unchanged when it had one, else with a copy of the current
/// fiber's next hook added.
pub open spec fn advanced_wip_hooks(current: Seq<HookView>, wip: Seq<HookView>, cursor: HookCursor) -> Seq<HookView> {
    match next_hook(cursor.work_in_progress_hook, wip.len()) {
        Some(j) => wip,
        None => wip.push(current[next_hook(cursor.current_hook, current.len()).unwrap() as int]),
    }
}

/// The index of the hook that the next hook call uses.
pub open spec fn next_wip_index(wip_len: nat, cursor: HookCursor) -> int {
    match next_hook(cursor.work_in_progress_hook, wip_len) {
        Some(j) => j as int,
        None => wip_len as int,
    }
}

/// The updates a state hook works through on update: those its current hook
/// kept from earlier renders, then the pending ones.
pub open spec fn merged_queue(current: Seq<HookView>, cursor: HookCursor, pending: Seq<Update>) -> Seq<Update> {
    current[next_hook(cursor.current_hook, current.len()).unwrap() as int].base_queue + pending
}

/// `useState` on an update render. The pending updates of the hook's queue
/// are appended to the updates its current hook kept, which the current hook
/// keeps from now on (so that a render that does not commit loses none), and
/// the queue's pending list is emptied. When there is anything to process,
/// it is processed for `render_lanes` on top of the hook's base state: the
/// hook takes the new state, base state and base queue, the queue remembers
/// the new state as last rendered, and the lanes of skipped updates are
/// added to the fiber's lanes. Returns the state, the dispatch function of
/// the queue, and whether the state changed in this render.
pub fn update_state<F: Fn(u64, Option<u64>) -> u64>(
    current_hooks: &mut Vec<Hook>,
    wip_hooks: &mut Vec<Hook>,
    cursor: &mut HookCursor,
    queue: &mut UpdateQueue,
    fiber_lanes: &mut Lane,
    render_lanes: Lane,
    call: &F,
) -> (r: (Option<u64>, Option<u64>, bool))
    requires
        forall|f: u64, s: Option<u64>| call.requires((f, s)),
        cursor_in(*old(cursor), old(current_hooks)@.len(), old(wip_hooks)@.len()),
        next_hook(old(cursor).current_hook, old(current_hooks)@.len()) is Some,
        old(wip_hooks)@.len() < usize::MAX,
        ({
            let m = merged_queue(hooks_view(old(current_hooks)@), *old(cursor), old(queue).shared.pending@);
            let h = next_wip_hook(hooks_view(old(current_hooks)@), hooks_view(old(wip_hooks)@), *old(cursor));
            &&& forall|i: int|
                0 <= i < m.len() ==> (#[trigger] m[i]).action is Some && (m[i].has_eager_state
                    ==> m[i].eager_state is Some)
            &&& m.len() > 0 ==> h.memoized_state is Some && (last_applied(m, render_lanes) >= 0
                || h.base_state is Some)
        }),
    ensures
        ({
            let cur = hooks_view(old(current_hooks)@);
            let wip = hooks_view(old(wip_hooks)@);
            let ci = next_hook(old(cursor).current_hook, cur.len()).unwrap() as int;
            let m = merged_queue(cur, *old(cursor), old(queue).shared.pending@);
            let h = next_wip_hook(cur, wip, *old(cursor));
            let adv = advanced_wip_hooks(cur, wip, *old(cursor));
            let wi = next_wip_index(wip.len(), *old(cursor));
            &&& hooks_view(final(current_hooks)@) == cur.update(
                ci,
                HookView { memoized_state: cur[ci].memoized_state, base_state: cur[ci].base_state, base_queue: m },
            )
            &&& final(cursor).current_hook == Some(ci as usize)
            &&& final(cursor).work_in_progress_hook == Some(wi as usize)
            &&& final(queue).shared.pending@ == Seq::<Update>::empty()
            &&& final(queue).dispatch == old(queue).dispatch
            &&& r.1 == old(queue).dispatch
            &&& m.len() == 0 ==> {
                &&& hooks_view(final(wip_hooks)@) == adv
                &&& final(fiber_lanes)@ == old(fiber_lanes)@
                &&& final(queue).last_rendered_state == old(queue).last_rendered_state
                &&& r.0 == h.memoized_state
                &&& !r.2
            }
            &&& m.len() > 0 ==> exists|memo: Option<u64>, base: Option<u64>, kept: Seq<Update>, skipped: u32|
                {
                    &&& processed(m, h.base_state, render_lanes, call, memo, base, kept, skipped)
                    &&& hooks_view(final(wip_hooks)@) == adv.update(
                        wi,
                        HookView { memoized_state: memo, base_state: base, base_queue: kept },
                    )
                    &&& final(fiber_lanes)@ == old(fiber_lanes)@ | skipped
                    &&& final(queue).last_rendered_state == memo
                    &&& r.0 == memo
                    &&& r.2 == (memo != h.memoized_state)
                }
        }),
{
    let ghost cur = hooks_view(old(current_hooks)@);
    let ghost wip = hooks_view(old(wip_hooks)@);
    let wi = update_work_in_progress_hook(current_hooks, wip_hooks, cursor);
    let ci = cursor.current_hook.unwrap();
    let ghost adv = hooks_view(wip_hooks@);
    proof {
        assert(adv =~= advanced_wip_hooks(cur, wip, *old(cursor)));
        assert(cur[ci as int] == current_hooks@[ci as int]@);
    }
    let base_state = wip_hooks[wi].base_state;
    let mut base_queue = copy_updates(&current_hooks[ci].base_queue);
    let ghost m = merged_queue(cur, *old(cursor), old(queue).shared.pending@);
    if queue.shared.pending.len() > 0 {
        let mut k: usize = 0;
        while k < queue.shared.pending.len()
            invariant
                k <= queue.shared.pending@.len(),
                queue.shared.pending@ == old(queue).shared.pending@,
                base_queue@ == cur[ci as int].base_queue + queue.shared.pending@.take(k as int),
            decreases queue.shared.pending@.len() - k,
        {
            base_queue.push(queue.shared.pending[k]);
            k = k + 1;
            assert(base_queue@ =~= cur[ci as int].base_queue + queue.shared.pending@.take(k as int));
        }
        assert(queue.shared.pending@.take(k as int) =~= queue.shared.pending@);
        let kept = Hook {
            memoized_state: current_hooks[ci].memoized_state,
            base_state: current_hooks[ci].base_state,
            base_queue: copy_updates(&base_queue),
        };
        current_hooks.set(ci, kept);
        queue.shared.pending = Vec::new();
    } else {
        assert(old(queue).shared.pending@ =~= Seq::<Update>::empty());
    }
    assert(base_queue@ =~= m);
    proof {
        assert(hooks_view(current_hooks@) =~= cur.update(
            ci as int,
            HookView { memoized_state: cur[ci as int].memoized_state, base_state: cur[ci as int].base_state, base_queue: m },
        ));
    }
    if base_queue.len() > 0 {
        let pre_state = wip_hooks[wi].memoized_state;
        assert forall|j: int| 0 <= j < base_queue@.len() implies (#[trigger] base_queue@[j]).action is Some
            && (base_queue@[j].has_eager_state ==> base_queue@[j].eager_state is Some) by {
            assert(base_queue@[j] == m[j]);
        }
        proof {
            first_skip_bounds(base_queue@, render_lanes);
        }
        let res = process_update_queue(base_state, &base_queue, render_lanes, call);
        *fiber_lanes = merge_lanes(*fiber_lanes, res.skipped_lanes);
        let received = match (res.memoized_state, pre_state) {
            (Some(a), Some(b)) => a != b,
            (None, None) => false,
            _ => true,
        };
        queue.last_rendered_state = res.memoized_state;
        let memo = res.memoized_state;
        let ghost kept_q = res.base_queue@;
        let ghost new_base = res.base_state;
        let ghost skipped = res.skipped_lanes@;
        wip_hooks.set(wi, Hook { memoized_state: res.memoized_state, base_state: res.base_state, base_queue: res.base_queue });
        proof {
            assert(hooks_view(wip_hooks@) =~= adv.update(
                wi as int,
                HookView { memoized_state: memo, base_state: new_base, base_queue: kept_q },
            ));
        }
        return (memo, queue.dispatch, received);
    }
    proof {
        assert(hooks_view(wip_hooks@) =~= adv);
    }
    (wip_hooks[wi].memoized_state, queue.dispatch, false)
}

/// `useState` on a first render: a new hook holds `initial` (the initial
/// state, already computed by the caller when it is a function) as its state
/// and base state, and a new queue with the dispatch function `dispatch`
/// remembers it as last rendered. Returns the hook's index and its queue.
pub fn mount_state(
    wip_hooks: &mut Vec<Hook>,
    cursor: &mut HookCursor,
    initial: u64,
    dispatch: u64,
) -> (r: (usize, UpdateQueue))
    requires
        old(cursor).work_in_progress_hook matches Some(j) ==> j < old(wip_hooks)@.len(),
        old(wip_hooks)@.len() < usize::MAX,
    ensures
        ({
            let kept = kept_hooks(hooks_view(old(wip_hooks)@), old(cursor).work_in_progress_hook);
            &&& r.0 == kept.len()
            &&& hooks_view(final(wip_hooks)@) == kept.push(
                HookView { memoized_state: Some(initial), base_state: Some(initial), base_queue: Seq::empty() },
            )
        }),
        final(cursor).work_in_progress_hook == Some(r.0),
        final(cursor).current_hook == old(cursor).current_hook,
        r.1.shared.pending@ == Seq::<Update>::empty(),
        r.1.dispatch == Some(dispatch),
        r.1.last_rendered_state == Some(initial),
{
    let i = mount_work_in_progress_hook(wip_hooks, cursor);
    assert(hooks_view(wip_hooks@).len() == wip_hooks@.len());
    let ghost before = wip_hooks@;
    wip_hooks.set(i, Hook { memoized_state: Some(initial), base_state: Some(initial), base_queue: Vec::new() });
    let mut queue = create_update_queue();
    queue.dispatch = Some(dispatch);
    queue.last_rendered_state = Some(initial);
    proof {
        let nh = HookView { memoized_state: Some(initial), base_state: Some(initial), base_queue: Seq::empty() };
        assert(wip_hooks@ == before.update(i as int, wip_hooks@[i as int]));
        assert(hooks_view(wip_hooks@) =~= hooks_view(before).update(i as int, nh));
        let kept = kept_hooks(hooks_view(old(wip_hooks)@), old(cursor).work_in_progress_hook);
        assert(hooks_view(wip_hooks@) =~= kept.push(nh));
    }
    (i, queue)
}

/// An effect of `useEffect`: its tag, its create function, the destroy
/// function its last run returned (`None` when there is none), and its
/// dependencies; functions are given by handle.
pub struct Effect {
    pub tag: Flags,
    pub create: u64,
    pub destroy: Option<u64>,
    pub deps: HookDeps,
}

/// Adds an effect to the effect list of the fiber being rendered, after the
/// effects already in it. Returns its index in the list.
pub fn push_effect(effects: &mut Vec<Effect>, tag: Flags, create: u64, destroy: Option<u64>, deps: HookDeps) -> (r: usize)
    ensures
        r == old(effects)@.len(),
        final(effects)@.len() == old(effects)@.len() + 1,
        forall|i: int| 0 <= i < old(effects)@.len() ==> #[trigger] final(effects)@[i] == old(effects)@[i],
        final(effects)@[r as int].tag == tag,
        final(effects)@[r as int].create == create,
        final(effects)@[r as int].destroy == destroy,
        deps_view(final(effects)@[r as int].deps) == deps_view(deps),
{
    let r = effects.len();
    effects.push(Effect { tag, create, destroy, deps });
    r
}

/// The tag of an effect pushed on update: passive only when its
/// dependencies are given and unchanged since `prev_deps`, else passive
/// with an effect to run.
pub open spec fn updated_effect_tag(prev_deps: HookDeps, deps: HookDeps) -> u16 {
    if deps is Some && same_inputs(deps_view(prev_deps), deps_view(deps)) { 0x2 } else { 0x3 }
}

/// `useEffect` on a first render: a new hook holds the index of a new
/// effect (passive, with an effect to run, no destroy function yet) at the
/// end of the fiber's effect list, and the fiber gets the passive effect
/// flag.
pub fn mount_effect(
    wip_hooks: &mut Vec<Hook>,
    cursor: &mut HookCursor,
    effects: &mut Vec<Effect>,
    fiber_flags: &mut Flags,
    create: u64,
    deps: HookDeps,
)
    requires
        old(cursor).work_in_progress_hook matches Some(j) ==> j < old(wip_hooks)@.len(),
        old(wip_hooks)@.len() < usize::MAX,
    ensures
        ({
            let kept = kept_hooks(hooks_view(old(wip_hooks)@), old(cursor).work_in_progress_hook);
            let n = old(effects)@.len();
            &&& hooks_view(final(wip_hooks)@) == kept.push(
                HookView { memoized_state: Some(n as u64), base_state: None, base_queue: Seq::empty() },
            )
            &&& final(cursor).work_in_progress_hook == Some(kept.len() as usize)
            &&& final(effects)@.len() == n + 1
            &&& forall|i: int| 0 <= i < n ==> #[trigger] final(effects)@[i] == old(effects)@[i]
            &&& final(effects)@[n as int].tag@ == 0x3
            &&& final(effects)@[n as int].create == create
            &&& final(effects)@[n as int].destroy is None
            &&& deps_view(final(effects)@[n as int].deps) == deps_view(deps)
            &&& final(fiber_flags)@ == old(fiber_flags)@ | 0x8
        }),
{
    let i = mount_work_in_progress_hook(wip_hooks, cursor);
    *fiber_flags = fiber_flags.union(&Flags::passive_effect());
    let tag = crate::hooks::mount_effect_tag();
    let index = push_effect(effects, tag, create, None, deps);
    assert(hooks_view(wip_hooks@).len() == wip_hooks@.len());
    let ghost before = wip_hooks@;
    wip_hooks.set(i, Hook { memoized_state: Some(index as u64), base_state: None, base_queue: Vec::new() });
    proof {
        let nh = HookView { memoized_state: Some(index as u64), base_state: None, base_queue: Seq::empty() };
        assert(hooks_view(wip_hooks@) =~= hooks_view(before).update(i as int, nh));
        let kept = kept_hooks(hooks_view(old(wip_hooks)@), old(cursor).work_in_progress_hook);
        assert(hooks_view(wip_hooks@) =~= kept.push(nh));
    }
}

/// `useEffect` on an update render: the hook's effect of the last render is
/// the one at the index its current hook holds in the current fiber's
/// effect list (`prev_effects`). Exactly one effect is pushed at the end of
/// the fiber's effect list, with the destroy function of the last one and
/// the new dependencies; with dependencies given and unchanged it is passive
/// only and the fiber's flags stay, otherwise it has an effect to run and the
/// fiber gets the passive effect flag. The hook then holds its index.
pub fn update_effect(
    current_hooks: &Vec<Hook>,
    wip_hooks: &mut Vec<Hook>,
    cursor: &mut HookCursor,
    prev_effects: &Vec<Effect>,
    effects: &mut Vec<Effect>,
    fiber_flags: &mut Flags,
    create: u64,
    deps: HookDeps,
)
    requires
        cursor_in(*old(cursor), current_hooks@.len(), old(wip_hooks)@.len()),
        next_hook(old(cursor).current_hook, current_hooks@.len()) is Some,
        old(wip_hooks)@.len() < usize::MAX,
        ({
            let c = current_hooks@[next_hook(old(cursor).current_hook, current_hooks@.len()).unwrap() as int];
            c.memoized_state is Some && c.memoized_state.unwrap() < prev_effects@.len()
        }),
    ensures
        ({
            let cur = hooks_view(current_hooks@);
            let wip = hooks_view(old(wip_hooks)@);
            let ci = next_hook(old(cursor).current_hook, cur.len()).unwrap() as int;
            let prev = prev_effects@[cur[ci].memoized_state.unwrap() as int];
            let h = next_wip_hook(cur, wip, *old(cursor));
            let wi = next_wip_index(wip.len(), *old(cursor));
            let n = old(effects)@.len();
            let tag = updated_effect_tag(prev.deps, deps);
            &&& final(cursor).current_hook == Some(ci as usize)
            &&& final(cursor).work_in_progress_hook == Some(wi as usize)
            &&& hooks_view(final(wip_hooks)@) == advanced_wip_hooks(cur, wip, *old(cursor)).update(
                wi,
                HookView { memoized_state: Some(n as u64), base_state: h.base_state, base_queue: h.base_queue },
            )
            &&& final(effects)@.len() == n + 1
            &&& forall|i: int| 0 <= i < n ==> #[trigger] final(effects)@[i] == old(effects)@[i]
            &&& final(effects)@[n as int].tag@ == tag
            &&& final(effects)@[n as int].create == create
            &&& final(effects)@[n as int].destroy == prev.destroy
            &&& deps_view(final(effects)@[n as int].deps) == deps_view(deps)
            &&& final(fiber_flags)@ == (if tag == 0x2 { old(fiber_flags)@ } else { old(fiber_flags)@ | 0x8 })
        }),
{
    let ghost cur = hooks_view(current_hooks@);
    let ghost wip = hooks_view(old(wip_hooks)@);
    let wi = update_work_in_progress_hook(current_hooks, wip_hooks, cursor);
    let ci = cursor.current_hook.unwrap();
    let ghost adv = hooks_view(wip_hooks@);
    proof {
        assert(adv =~= advanced_wip_hooks(cur, wip, *old(cursor)));
        assert(cur[ci as int] == current_hooks@[ci as int]@);
    }
    let prev_handle = current_hooks[ci].memoized_state.unwrap();
    let plen = prev_effects.len();
    assert(prev_handle < plen);
    let prev_index = prev_handle as usize;
    assert(prev_index as int == cur[ci as int].memoized_state.unwrap() as int);
    let prev = &prev_effects[prev_index];
    let destroy = prev.destroy;
    let unchanged = deps.is_some() && crate::hooks::are_hook_inputs_equal(&prev.deps, &deps);
    let tag = if unchanged {
        Flags::passive()
    } else {
        *fiber_flags = fiber_flags.union(&Flags::passive_effect());
        let t = Flags::passive().union(&Flags::hook_has_effect());
        assert(0x2u16 | 0x1u16 == 0x3u16) by (bit_vector);
        t
    };
    assert(tag@ == updated_effect_tag(prev.deps, deps));
    let index = push_effect(effects, tag, create, destroy, deps);
    let base_state = wip_hooks[wi].base_state;
    let base_queue = copy_updates(&wip_hooks[wi].base_queue);
    wip_hooks.set(wi, Hook { memoized_state: Some(index as u64), base_state, base_queue });
    proof {
        let h = next_wip_hook(cur, wip, *old(cursor));
        assert(hooks_view(wip_hooks@) =~= adv.update(
            wi as int,
            HookView { memoized_state: Some(index as u64), base_state: h.base_state, base_queue: h.base_queue },
        ));
    }
}

} // verus!
