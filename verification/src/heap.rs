use vstd::prelude::*;
use crate::order::total_order;
use crate::order::le;
use crate::order::lt;
use crate::order::lemma_total;
use crate::order::lemma_trans;
use crate::order::lemma_operators;
use crate::order::operators_follow_order;
use vstd::arithmetic::power2::pow2;
use vstd::arithmetic::power2::lemma_pow2_unfold;
use vstd::arithmetic::power2::lemma2_to64;

verus! {

broadcast use vstd::seq_lib::group_to_multiset_ensures;

/// Calls `<[E]>::swap` from core, which exchanges the two elements at the
/// given indices (and panics when either index is out of bounds).
#[verifier::external_body]
fn swap_elements<E>(v: &mut Vec<E>, a: usize, b: usize)
    requires
        a < old(v)@.len(),
        b < old(v)@.len(),
    ensures
        final(v)@ == old(v)@.update(a as int, old(v)@[b as int]).update(b as int, old(v)@[a as int]),
{
    v.swap(a, b)
}

/// The element at `i` is no smaller than its parent.
pub open spec fn heap_edge<T: Ord>(s: Seq<T>, i: int) -> bool {
    le(s[(i - 1) / 2], s[i])
}

/// `s` is a binary min-heap: every element is no smaller than its parent.
pub open spec fn is_heap<T: Ord>(s: Seq<T>) -> bool {
    forall|i: int| 0 < i < s.len() ==> #[trigger] heap_edge(s, i)
}

/// Below `k` the heap order holds with `k`'s parent in `k`'s place.
spec fn grandparent_ok<T: Ord>(s: Seq<T>, k: int, c: int) -> bool {
    le(s[(k - 1) / 2], s[c])
}

/// A heap but for the edge into `k`, whose children are no smaller than `k`'s parent.
spec fn heap_but_up<T: Ord>(s: Seq<T>, k: int) -> bool {
    &&& forall|i: int| 0 < i < s.len() && i != k ==> #[trigger] heap_edge(s, i)
    &&& forall|c: int|
        0 < k && 0 < c < s.len() && (c - 1) / 2 == k ==> #[trigger] grandparent_ok(s, k, c)
}

/// A heap but for the edges out of `k`, whose children are no smaller than `k`'s parent.
spec fn heap_but_down<T: Ord>(s: Seq<T>, k: int) -> bool {
    &&& forall|i: int| 0 < i < s.len() && (i - 1) / 2 != k ==> #[trigger] heap_edge(s, i)
    &&& forall|c: int|
        0 < k && 0 < c < s.len() && (c - 1) / 2 == k ==> #[trigger] grandparent_ok(s, k, c)
}

proof fn lemma_swap_multiset<T>(s: Seq<T>, a: int, b: int)
    requires
        0 <= a < s.len(),
        0 <= b < s.len(),
    ensures
        s.update(a, s[b]).update(b, s[a]).to_multiset() =~= s.to_multiset(),
{
    broadcast use vstd::multiset::group_multiset_axioms;

    let s1 = s.update(a, s[b]);
    assert(s1.to_multiset() == s.to_multiset().insert(s[b]).remove(s[a]));
    assert(s1.update(b, s[a]).to_multiset() == s1.to_multiset().insert(s[a]).remove(s1[b]));
}

/// The root of a heap is no larger than any element of it.
pub proof fn lemma_heap_root_min<T: Ord>(s: Seq<T>, i: int)
    requires
        total_order::<T>(),
        is_heap(s),
        0 <= i < s.len(),
    ensures
        le(s[0], s[i]),
    decreases i,
{
    lemma_total(s[0], s[0]);
    if i > 0 {
        let p = (i - 1) / 2;
        lemma_heap_root_min(s, p);
        assert(heap_edge(s, i));
        lemma_trans(s[0], s[p], s[i]);
    }
}

/// Inserts `value` into the heap.
pub fn push<T: Ord>(heap: &mut Vec<T>, value: T)
    requires
        old(heap)@.len() < usize::MAX,
    ensures
        final(heap)@.len() == old(heap)@.len() + 1,
        final(heap)@.to_multiset() == old(heap)@.to_multiset().insert(value),
        total_order::<T>() && is_heap(old(heap)@) ==> is_heap(final(heap)@),
{
    let ghost pre = heap@;
    heap.push(value);
    proof {
        assert(heap@ == pre.push(value));
        if total_order::<T>() && is_heap(pre) {
            let s = heap@;
            let k = s.len() - 1;
            assert forall|i: int| 0 < i < s.len() && i != k implies #[trigger] heap_edge(s, i) by {
                assert(heap_edge(pre, i));
            }
            assert forall|c: int| 0 < k && 0 < c < s.len() && (c - 1) / 2 == k
                implies #[trigger] grandparent_ok(s, k, c) by {}
        }
    }
    let last = heap.len() - 1;
    sift_up(heap, last);
}

/// Takes the root out of the heap and restores the heap order.
pub fn pop<T: Ord>(heap: &mut Vec<T>) -> (result: Option<T>)
    ensures
        old(heap)@.len() == 0 ==> result is None && final(heap)@ == old(heap)@,
        old(heap)@.len() > 0 ==> {
            &&& result == Some(old(heap)@[0])
            &&& final(heap)@.len() == old(heap)@.len() - 1
            &&& final(heap)@.to_multiset() == old(heap)@.to_multiset().remove(old(heap)@[0])
        },
        total_order::<T>() && is_heap(old(heap)@) ==> {
            &&& is_heap(final(heap)@)
            &&& forall|i: int| 0 <= i < old(heap)@.len() ==> le(old(heap)@[0], #[trigger] old(heap)@[i])
        },
{
    let ghost pre = heap@;
    proof {
        if total_order::<T>() && is_heap(pre) {
            assert forall|i: int| 0 <= i < pre.len() implies le(pre[0], #[trigger] pre[i]) by {
                lemma_heap_root_min(pre, i);
            }
        }
    }
    if heap.is_empty() {
        return None;
    }
    let last_index = heap.len() - 1;
    swap_elements(heap, 0, last_index);
    let ghost swapped = heap@;
    proof {
        lemma_swap_multiset(pre, 0, last_index as int);
    }
    let result = heap.pop();
    proof {
        assert(swapped =~= heap@.push(pre[0]));
        assert(swapped.to_multiset() == heap@.to_multiset().insert(pre[0]));
        assert(heap@.to_multiset() =~= pre.to_multiset().remove(pre[0])) by {
            broadcast use vstd::multiset::group_multiset_axioms;
        }
        if total_order::<T>() && is_heap(pre) && heap@.len() > 0 {
            let s = heap@;
            assert forall|i: int| 0 < i < s.len() && (i - 1) / 2 != 0 implies #[trigger] heap_edge(s, i) by {
                assert(heap_edge(pre, i));
            }
            assert forall|c: int| 0 < 0 && 0 < c < s.len() && (c - 1) / 2 == 0
                implies #[trigger] grandparent_ok(s, 0, c) by {}
        }
    }
    if !heap.is_empty() {
        sift_down(heap, 0);
    }
    result
}

/// `j` is `i` or an ancestor of `i` in the heap's tree.
spec fn on_path_up(j: int, i: int) -> bool
    decreases i,
{
    j == i || (i > 0 && on_path_up(j, (i - 1) / 2))
}

/// The parent of a node on the path up from `i` is on it too.
proof fn lemma_path_up_parent(k: int, i: int)
    requires
        on_path_up(k, i),
        k > 0,
    ensures
        on_path_up((k - 1) / 2, i),
    decreases i,
{
    if k != i {
        lemma_path_up_parent(k, (i - 1) / 2);
    } else {
        assert(i > 0);
        assert(on_path_up((i - 1) / 2, (i - 1) / 2)) by {
            reveal_with_fuel(on_path_up, 1);
        }
    }
}

/// Moves the element at `index` up towards the root until its parent is no
/// larger. Only the elements on the path from `index` up to the root move.
fn sift_up<T: Ord>(heap: &mut Vec<T>, index: usize)
    requires
        index < old(heap)@.len(),
    ensures
        final(heap)@.len() == old(heap)@.len(),
        final(heap)@.to_multiset() == old(heap)@.to_multiset(),
        total_order::<T>() && heap_but_up(old(heap)@, index as int) ==> is_heap(final(heap)@),
        forall|j: int|
            0 <= j < old(heap)@.len() && !on_path_up(j, index as int) ==> #[trigger] final(heap)@[j]
                == old(heap)@[j],
{
    let ghost wf = total_order::<T>() && heap_but_up(heap@, index as int);
    let ghost pre = heap@;
    let ghost start = index as int;
    proof {
        if wf {
            lemma_operators::<T>();
        }
    }
    let mut index = index;
    loop
        invariant
            index < heap@.len(),
            heap@.len() == pre.len(),
            heap@.to_multiset() == pre.to_multiset(),
            wf ==> total_order::<T>() && operators_follow_order::<T>(),
            wf ==> heap_but_up(heap@, index as int),
            on_path_up(index as int, start),
            forall|j: int| 0 <= j < pre.len() && !on_path_up(j, start) ==> #[trigger] heap@[j] == pre[j],
        ensures
            heap@.len() == pre.len(),
            heap@.to_multiset() == pre.to_multiset(),
            wf ==> is_heap(heap@),
            forall|j: int| 0 <= j < pre.len() && !on_path_up(j, start) ==> #[trigger] heap@[j] == pre[j],
        decreases index,
    {
        if index == 0 {
            proof {
                if wf {
                    let s = heap@;
                    assert forall|i: int| 0 < i < s.len() implies #[trigger] heap_edge(s, i) by {
                        assert(i != 0);
                    }
                }
            }
            break;
        }
        let parent = (index - 1) / 2;
        let ghost s = heap@;
        if heap[parent] <= heap[index] {
            proof {
                if wf {
                    assert forall|i: int| 0 < i < s.len() implies #[trigger] heap_edge(s, i) by {
                        if i != index {
                            assert(heap_edge(s, i));
                        }
                    }
                }
            }
            break;
        }
        proof {
            lemma_path_up_parent(index as int, start);
        }
        swap_elements(heap, parent, index);
        proof {
            lemma_swap_multiset(s, parent as int, index as int);
            let t = heap@;
            let ghost k = index as int;
            let p = parent as int;
            if wf {
                lemma_total(s[p], s[k]);
                assert(lt(s[k], s[p]));
                assert forall|i: int| 0 < i < t.len() && i != p implies #[trigger] heap_edge(t, i) by {
                    let q = (i - 1) / 2;
                    if i == k {
                        lemma_total(s[k], s[p]);
                    } else if q == k {
                        assert(grandparent_ok(s, k, i));
                    } else if q == p {
                        assert(heap_edge(s, i));
                        lemma_total(s[k], s[p]);
                        lemma_trans(s[k], s[p], s[i]);
                    } else {
                        assert(heap_edge(s, i));
                    }
                }
                assert forall|c: int| 0 < p && 0 < c < t.len() && (c - 1) / 2 == p
                    implies #[trigger] grandparent_ok(t, p, c) by {
                    let pp = (p - 1) / 2;
                    assert(heap_edge(s, p));
                    if c != k {
                        assert(heap_edge(s, c));
                        lemma_trans(s[pp], s[p], s[c]);
                    }
                }
            }
        }
        index = parent;
    }
}

/// Moves the element at `index` down, swapping it with its smaller child,
/// until no child is smaller. Returns the number of swaps made: each goes one
/// level down, so from the root there are at most log2 of the length.
fn sift_down<T: Ord>(heap: &mut Vec<T>, index: usize) -> (swaps: Ghost<nat>)
    requires
        index < old(heap)@.len(),
    ensures
        final(heap)@.len() == old(heap)@.len(),
        final(heap)@.to_multiset() == old(heap)@.to_multiset(),
        total_order::<T>() && heap_but_down(old(heap)@, index as int) ==> is_heap(final(heap)@),
        pow2(swaps@) * (index + 1) <= old(heap)@.len(),
{
    let ghost wf = total_order::<T>() && heap_but_down(heap@, index as int);
    let ghost pre = heap@;
    let ghost start = index as int;
    let ghost mut count: nat = 0;
    proof {
        lemma2_to64();
    }
    proof {
        if wf {
            lemma_operators::<T>();
        }
    }
    let len = heap.len();
    let mut index = index;
    loop
        invariant
            len == heap@.len(),
            index < len,
            heap@.len() == pre.len(),
            heap@.to_multiset() == pre.to_multiset(),
            wf ==> total_order::<T>() && operators_follow_order::<T>(),
            wf ==> heap_but_down(heap@, index as int),
            pow2(count) * (start + 1) <= index + 1,
        ensures
            heap@.len() == pre.len(),
            heap@.to_multiset() == pre.to_multiset(),
            wf ==> is_heap(heap@),
            pow2(count) * (start + 1) <= index + 1,
            index < len,
        decreases len - index,
    {
        let ghost s = heap@;
        let ghost k = index as int;
        if index >= len / 2 {
            // no children: the heap order already holds everywhere
            proof {
                if wf {
                    assert forall|i: int| 0 < i < s.len() implies #[trigger] heap_edge(s, i) by {
                        if (i - 1) / 2 == k {
                            assert(false);
                        }
                    }
                }
            }
            break;
        }
        let left_child = index * 2 + 1;
        let right_child = left_child + 1;
        let mut smallest = index;
        if left_child < len && heap[left_child] < heap[smallest] {
            smallest = left_child;
        }
        if right_child < len && heap[right_child] < heap[smallest] {
            smallest = right_child;
        }
        let ghost l = left_child as int;
        let ghost r = right_child as int;
        let ghost m = smallest as int;
        proof {
            if wf {
                // the smallest of the node and its children
                lemma_total(s[l], s[k]);
                lemma_total(s[k], s[l]);
                if r < len {
                    lemma_total(s[r], s[k]);
                    lemma_total(s[r], s[l]);
                    lemma_total(s[l], s[r]);
                    lemma_total(s[k], s[r]);
                    if lt(s[r], s[l]) && lt(s[l], s[k]) {
                        lemma_trans(s[r], s[l], s[k]);
                    }
                    if lt(s[r], s[k]) && le(s[k], s[l]) {
                        lemma_trans(s[r], s[k], s[l]);
                    }
                    if lt(s[l], s[k]) && le(s[l], s[r]) {
                        lemma_trans(s[l], s[l], s[r]);
                    }
                }
                assert(le(s[m], s[k]));
                assert(le(s[m], s[l]));
                assert(r < len ==> le(s[m], s[r]));
            }
        }
        if smallest == index {
            proof {
                if wf {
                    assert forall|i: int| 0 < i < s.len() implies #[trigger] heap_edge(s, i) by {
                        if (i - 1) / 2 == k {
                            assert(i == l || i == r);
                        }
                    }
                }
            }
            break;
        }
        swap_elements(heap, index, smallest);
        proof {
            lemma_swap_multiset(s, k, m);
            let t = heap@;
            if wf {
                assert(lt(s[m], s[k]));
                assert forall|i: int| 0 < i < t.len() && (i - 1) / 2 != m implies #[trigger] heap_edge(t, i) by {
                    let q = (i - 1) / 2;
                    if i == k {
                        assert(grandparent_ok(s, k, m));
                    } else if i == m {
                        lemma_total(s[m], s[k]);
                    } else if q == k {
                        assert(i == l || i == r);
                    } else {
                        assert(heap_edge(s, i));
                    }
                }
                assert forall|c: int| 0 < m && 0 < c < t.len() && (c - 1) / 2 == m
                    implies #[trigger] grandparent_ok(t, m, c) by {
                    assert(heap_edge(s, c));
                }
            }
        }
        proof {
            let c = count;
            lemma_pow2_unfold(c + 1);
            let p = pow2(c);
            let k2 = index as int;
            let m2 = smallest as int;
            assert(m2 + 1 >= 2 * (k2 + 1));
            assert(2 * p * (start + 1) <= 2 * (k2 + 1)) by (nonlinear_arith)
                requires
                    p * (start + 1) <= k2 + 1,
            ;
            assert(pow2(c + 1) * (start + 1) == 2 * p * (start + 1)) by (nonlinear_arith)
                requires
                    pow2(c + 1) == 2 * p,
            ;
            count = c + 1;
        }
        index = smallest;
    }
    Ghost(count)
}

/// The root of the heap, if there is one.
pub fn peek<T: Ord>(heap: &Vec<T>) -> (r: Option<&T>)
    ensures
        heap@.len() == 0 ==> r is None,
        heap@.len() > 0 ==> r == Some(&heap@[0]),
{
    heap.get(0)
}

/// Whether the heap holds no element.
pub fn is_empty<T: Ord>(heap: &Vec<T>) -> (r: bool)
    ensures
        r == (heap@.len() == 0),
{
    heap.is_empty()
}

/// A mutable borrow of the root of the heap, if there is one. Whatever is
/// written through it lands at index 0.
pub fn peek_mut<T: Ord>(heap: &mut Vec<T>) -> (r: Option<&mut T>)
    ensures
        old(heap)@.len() == 0 ==> r is None && final(heap)@ == old(heap)@,
        old(heap)@.len() > 0 ==> r is Some && *r.unwrap() == old(heap)@[0]
            && final(heap)@ == old(heap)@.update(0, *final(r.unwrap())),
{
    if heap.is_empty() {
        None
    } else {
        Some(&mut heap[0])
    }
}

/// Popping a heap twice gives its elements in order: the root of the heap
/// that is left after the first pop is no smaller than the first root.
pub proof fn lemma_successive_pops_sorted<T: Ord>(s1: Seq<T>, s2: Seq<T>)
    requires
        total_order::<T>(),
        is_heap(s1),
        s1.len() > 0,
        s2.len() > 0,
        s2.to_multiset() == s1.to_multiset().remove(s1[0]),
    ensures
        le(s1[0], s2[0]),
{
    broadcast use vstd::multiset::group_multiset_axioms;

    assert(s2.to_multiset().contains(s2[0])) by {
        assert(s2.contains(s2[0]));
    }
    assert(s1.to_multiset().contains(s2[0]));
    assert(s1.contains(s2[0]));
    let j = choose|j: int| 0 <= j < s1.len() && s1[j] == s2[0];
    lemma_heap_root_min(s1, j);
}

/// `b` is what pushing `x` leaves of the heap `a`, as `push` states it.
pub open spec fn pushed_step<T: Ord>(a: Seq<T>, b: Seq<T>, x: T) -> bool {
    &&& b.to_multiset() == a.to_multiset().insert(x)
    &&& (total_order::<T>() && is_heap(a) ==> is_heap(b))
}

/// `b` is what popping `y` leaves of the non-empty heap `a`, as `pop`
/// states it.
pub open spec fn popped_step<T: Ord>(a: Seq<T>, b: Seq<T>, y: T) -> bool {
    &&& y == a[0]
    &&& b.to_multiset() == a.to_multiset().remove(a[0])
    &&& (total_order::<T>() && is_heap(a) ==> is_heap(b))
}

/// Pushing the elements `xs` one after another into an empty heap (through
/// the states `pushed`), then popping as many times (through the states
/// `popped`, the pops giving `ys`), gives the pushed elements back smallest
/// first, and leaves the heap empty, so that a further pop gives nothing.
pub proof fn lemma_pushes_then_pops_sorted<T: Ord>(
    xs: Seq<T>,
    ys: Seq<T>,
    pushed: Seq<Seq<T>>,
    popped: Seq<Seq<T>>,
)
    requires
        total_order::<T>(),
        pushed.len() == xs.len() + 1,
        pushed[0].len() == 0,
        forall|i: int| #![trigger xs[i]] 0 <= i < xs.len() ==> pushed_step(pushed[i], pushed[i + 1], xs[i]),
        ys.len() == xs.len(),
        popped.len() == xs.len() + 1,
        popped[0] == pushed[xs.len() as int],
        forall|i: int| #![trigger ys[i]] 0 <= i < ys.len() && popped[i].len() > 0 ==> popped_step(popped[i], popped[i + 1], ys[i]),
    ensures
        forall|i: int, j: int| 0 <= i <= j < ys.len() ==> le(ys[i], ys[j]),
        ys.to_multiset() == xs.to_multiset(),
        popped[xs.len() as int].len() == 0,
{
    broadcast use vstd::multiset::group_multiset_axioms;

    let n = xs.len() as int;
    lemma_pushes_fill(xs, pushed, n);
    assert(xs.take(n) =~= xs);
    lemma_pops_drain(xs, ys, popped, n);
    assert(ys.take(n) =~= ys);
    assert(popped[n].to_multiset().len() == 0);
    assert forall|i: int, j: int| 0 <= i <= j < ys.len() implies le(ys[i], ys[j]) by {
        lemma_pops_chain(xs, ys, popped, i, j);
    }
}

/// After `k` pushes the heap holds the first `k` elements and is a heap.
proof fn lemma_pushes_fill<T: Ord>(xs: Seq<T>, pushed: Seq<Seq<T>>, k: int)
    requires
        total_order::<T>(),
        0 <= k <= xs.len(),
        pushed.len() == xs.len() + 1,
        pushed[0].len() == 0,
        forall|i: int| #![trigger xs[i]] 0 <= i < xs.len() ==> pushed_step(pushed[i], pushed[i + 1], xs[i]),
    ensures
        pushed[k].to_multiset() == xs.take(k).to_multiset(),
        is_heap(pushed[k]),
    decreases k,
{
    broadcast use vstd::multiset::group_multiset_axioms;

    if k == 0 {
        assert(pushed[0] =~= Seq::<T>::empty());
        assert(xs.take(0) =~= Seq::<T>::empty());
    } else {
        lemma_pushes_fill(xs, pushed, k - 1);
        assert(pushed_step(pushed[k - 1], pushed[k], xs[k - 1]));
        assert(xs.take(k) =~= xs.take(k - 1).push(xs[k - 1]));
    }
}

/// After `k` pops the heap holds what was pushed less what was popped, has
/// `k` fewer elements, and is a heap.
proof fn lemma_pops_drain<T: Ord>(xs: Seq<T>, ys: Seq<T>, popped: Seq<Seq<T>>, k: int)
    requires
        total_order::<T>(),
        0 <= k <= xs.len(),
        ys.len() == xs.len(),
        popped.len() == xs.len() + 1,
        popped[0].to_multiset() == xs.to_multiset(),
        is_heap(popped[0]),
        forall|i: int| #![trigger ys[i]] 0 <= i < ys.len() && popped[i].len() > 0 ==> popped_step(popped[i], popped[i + 1], ys[i]),
    ensures
        popped[k].len() == xs.len() - k,
        is_heap(popped[k]),
        popped[k].to_multiset().add(ys.take(k).to_multiset()) == xs.to_multiset(),
    decreases k,
{
    broadcast use vstd::multiset::group_multiset_axioms;

    if k == 0 {
        assert(ys.take(0) =~= Seq::<T>::empty());
        assert(popped[0].to_multiset().add(ys.take(0).to_multiset()) =~= xs.to_multiset());
        assert(popped[0].len() == popped[0].to_multiset().len());
        assert(xs.len() == xs.to_multiset().len());
    } else {
        lemma_pops_drain(xs, ys, popped, k - 1);
        let a = popped[k - 1];
        assert(a.len() > 0);
        assert(popped_step(a, popped[k], ys[k - 1]));
        assert(a.contains(a[0]));
        assert(ys.take(k) =~= ys.take(k - 1).push(ys[k - 1]));
        assert(popped[k].to_multiset().add(ys.take(k).to_multiset()) =~= a.to_multiset().add(
            ys.take(k - 1).to_multiset(),
        ));
        assert(popped[k].len() == popped[k].to_multiset().len());
        assert(a.len() == a.to_multiset().len());
    }
}

/// Each pop gives no less than the one before it.
proof fn lemma_pops_chain<T: Ord>(xs: Seq<T>, ys: Seq<T>, popped: Seq<Seq<T>>, i: int, j: int)
    requires
        total_order::<T>(),
        0 <= i <= j < ys.len(),
        ys.len() == xs.len(),
        popped.len() == xs.len() + 1,
        popped[0].to_multiset() == xs.to_multiset(),
        is_heap(popped[0]),
        forall|k: int| #![trigger ys[k]] 0 <= k < ys.len() && popped[k].len() > 0 ==> popped_step(popped[k], popped[k + 1], ys[k]),
    ensures
        le(ys[i], ys[j]),
    decreases j - i,
{
    if i == j {
        lemma_total(ys[i], ys[i]);
    } else {
        lemma_pops_chain(xs, ys, popped, i + 1, j);
        lemma_pops_drain(xs, ys, popped, i);
        lemma_pops_drain(xs, ys, popped, i + 1);
        assert(popped_step(popped[i], popped[i + 1], ys[i]));
        assert(popped_step(popped[i + 1], popped[i + 2], ys[i + 1]));
        lemma_successive_pops_sorted(popped[i], popped[i + 1]);
        lemma_trans(ys[i], ys[i + 1], ys[j]);
    }
}

} // verus!
