use std::collections::HashMap;
use vstd::prelude::*;

verus! {

/// The key a child is found by among the old children: its explicit key (the
/// handle of the key string; equal handles are equal strings), or, without
/// one, its position.
#[derive(Debug, Clone, Copy, PartialEq, Eq, Structural)]
pub enum ChildKey {
    Index(u32),
    Name(u64),
}

/// An old child fiber of the parent: its key (`None` for `null`), its index
/// among its siblings, whether it is a host text node, and the handle of its
/// type (`None` for text).
#[derive(Debug, Clone, Copy, PartialEq, Eq, Structural)]
pub struct OldChild {
    pub key: Option<u64>,
    pub index: u32,
    pub is_host_text: bool,
    pub type_handle: Option<u64>,
}

/// A child as rendered: a string or a number, `null`, an element with its
/// key and type, an object that is no element, or another value.
#[derive(Debug, Clone, Copy, PartialEq, Eq, Structural)]
pub enum NewChild {
    Text,
    Null,
    Element { key: Option<u64>, type_handle: u64 },
    NotElementObject,
    Other,
}

/// Where a new child fiber comes from: an old child (its position among the
/// old children) that is reused, or nowhere.
#[derive(Debug, Clone, Copy, PartialEq, Eq, Structural)]
pub enum ChildSource {
    Reused(usize),
    Created,
}

/// A new child fiber: its index among the new children, where it comes from,
/// and whether it must be placed in the host tree.
#[derive(Debug, Clone, Copy, PartialEq, Eq, Structural)]
pub struct PlacedChild {
    pub index: u32,
    pub source: ChildSource,
    pub placement: bool,
}

/// The outcome of reconciling children: the new child fibers in order, and
/// the old children (by position) to delete.
pub struct ChildrenPlan {
    pub children: Vec<PlacedChild>,
    pub deletions: Vec<usize>,
}

/// The key an old child is stored under.
pub open spec fn old_key(c: OldChild) -> ChildKey {
    match c.key {
        None => ChildKey::Index(c.index),
        Some(k) => ChildKey::Name(k),
    }
}

/// The key a new child at position `i` is looked up by, if it is looked up.
pub open spec fn new_key(e: NewChild, i: int) -> Option<ChildKey> {
    match e {
        NewChild::Text => Some(ChildKey::Index(i as u32)),
        NewChild::Null => Some(ChildKey::Index(i as u32)),
        NewChild::Element { key, .. } => match key {
            None => Some(ChildKey::Index(i as u32)),
            Some(k) => Some(ChildKey::Name(k)),
        },
        _ => None,
    }
}

/// The old child at `j` is the one its key finds: no later old child has
/// the same key.
pub open spec fn winner(old: Seq<OldChild>, j: int) -> bool {
    forall|j2: int| j < j2 < old.len() ==> old_key(old[j2]) != old_key(old[j])
}

/// An earlier new child already looked up key `k` (and took it).
pub open spec fn looked_up_before(new: Seq<NewChild>, i: int, k: ChildKey) -> bool {
    exists|i2: int| 0 <= i2 < i && new_key(new[i2], i2) == Some(k)
}

/// The old child that the new child at `i` finds by its key, if any.
pub open spec fn found(old: Seq<OldChild>, new: Seq<NewChild>, i: int) -> Option<int> {
    match new_key(new[i], i) {
        None => None,
        Some(k) => if !looked_up_before(new, i, k) && exists|j: int|
            0 <= j < old.len() && winner(old, j) && old_key(old[j]) == k {
            Some(choose|j: int| 0 <= j < old.len() && winner(old, j) && old_key(old[j]) == k)
        } else {
            None
        },
    }
}

/// The found old child can serve the new child: text for text (or `null`),
/// and the same type for an element.
pub open spec fn compatible(c: OldChild, e: NewChild) -> bool {
    match e {
        NewChild::Text => c.is_host_text,
        NewChild::Null => c.is_host_text,
        NewChild::Element { type_handle, .. } => c.type_handle == Some(type_handle),
        _ => false,
    }
}

/// The old child that the new child at `i` reuses, if any.
pub open spec fn reused_at(old: Seq<OldChild>, new: Seq<NewChild>, i: int) -> Option<int> {
    match found(old, new, i) {
        Some(j) => if compatible(old[j], new[i]) {
            Some(j)
        } else {
            None
        },
        None => None,
    }
}

/// The new child at `i` gets a fiber.
pub open spec fn produces(old: Seq<OldChild>, new: Seq<NewChild>, i: int) -> bool {
    match new[i] {
        NewChild::Text => true,
        NewChild::Element { .. } => true,
        NewChild::Null => reused_at(old, new, i) is Some,
        _ => false,
    }
}

/// The largest old index among the old children reused by the first `n`
/// new children, and 0 when there is none.
pub open spec fn last_placed_index(old: Seq<OldChild>, new: Seq<NewChild>, n: int) -> u32
    decreases n,
{
    if n <= 0 {
        0
    } else {
        let prev = last_placed_index(old, new, n - 1);
        match reused_at(old, new, n - 1) {
            Some(j) => if produces(old, new, n - 1) && old[j].index >= prev {
                old[j].index
            } else {
                prev
            },
            None => prev,
        }
    }
}

/// The new child fibers of the first `n` new children, in order.
pub open spec fn planned_children(old: Seq<OldChild>, new: Seq<NewChild>, n: int, track: bool) -> Seq<PlacedChild>
    decreases n,
{
    if n <= 0 {
        Seq::empty()
    } else {
        let prev = planned_children(old, new, n - 1, track);
        let i = n - 1;
        if !produces(old, new, i) {
            prev
        } else {
            let child = match reused_at(old, new, i) {
                Some(j) => PlacedChild {
                    index: i as u32,
                    source: ChildSource::Reused(j as usize),
                    placement: track && old[j].index < last_placed_index(old, new, i),
                },
                None => PlacedChild { index: i as u32, source: ChildSource::Created, placement: track },
            };
            prev.push(child)
        }
    }
}

/// Some new child reuses the old child at `j`.
pub open spec fn is_reused(old: Seq<OldChild>, new: Seq<NewChild>, j: int) -> bool {
    exists|i: int| 0 <= i < new.len() && reused_at(old, new, i) == Some(j)
}

fn key_of_old(c: &OldChild) -> (r: ChildKey)
    ensures
        r == old_key(*c),
{
    match c.key {
        None => ChildKey::Index(c.index),
        Some(k) => ChildKey::Name(k),
    }
}

fn key_of_new(e: &NewChild, i: u32) -> (r: Option<ChildKey>)
    ensures
        r == new_key(*e, i as int),
{
    match e {
        NewChild::Text => Some(ChildKey::Index(i)),
        NewChild::Null => Some(ChildKey::Index(i)),
        NewChild::Element { key, .. } => match key {
            None => Some(ChildKey::Index(i)),
            Some(k) => Some(ChildKey::Name(*k)),
        },
        _ => None,
    }
}

/// The number a key is stored under in the map of existing children:
/// positions below 2^32, names from 2^64 on.
pub open spec fn key_number(k: ChildKey) -> u128 {
    match k {
        ChildKey::Index(i) => i as u128,
        ChildKey::Name(n) => (n as int + 0x1_0000_0000_0000_0000) as u128,
    }
}

fn key_number_of(k: ChildKey) -> (r: u128)
    ensures
        r == key_number(k),
{
    match k {
        ChildKey::Index(i) => i as u128,
        ChildKey::Name(n) => n as u128 + 0x1_0000_0000_0000_0000u128,
    }
}

proof fn lemma_key_number_injective(a: ChildKey, b: ChildKey)
    ensures
        key_number(a) == key_number(b) ==> a == b,
{
}

/// Two old children that are both found by the same key are the same.
proof fn lemma_winner_unique(old: Seq<OldChild>, j1: int, j2: int)
    requires
        0 <= j1 < old.len(),
        0 <= j2 < old.len(),
        winner(old, j1),
        winner(old, j2),
        old_key(old[j1]) == old_key(old[j2]),
    ensures
        j1 == j2,
{
    if j1 < j2 {
        assert(old_key(old[j2]) != old_key(old[j1]));
    } else if j2 < j1 {
        assert(old_key(old[j1]) != old_key(old[j2]));
    }
}

/// A found old child is a winner under the new child's key.
proof fn lemma_found_key(old: Seq<OldChild>, new: Seq<NewChild>, i: int, j: int)
    requires
        0 <= i < new.len(),
        found(old, new, i) == Some(j),
    ensures
        0 <= j < old.len(),
        winner(old, j),
        new_key(new[i], i) == Some(old_key(old[j])),
        !looked_up_before(new, i, old_key(old[j])),
{
}

/// The keys looked up before `i + 1` are those looked up before `i` and the
/// key of the new child at `i`.
proof fn lemma_looked_up_step(new: Seq<NewChild>, i: int, k: ChildKey)
    requires
        0 <= i < new.len(),
    ensures
        looked_up_before(new, i + 1, k) <==> (looked_up_before(new, i, k) || new_key(new[i], i) == Some(k)),
{
    if looked_up_before(new, i + 1, k) {
        let i2 = choose|i2: int| 0 <= i2 < i + 1 && new_key(new[i2], i2) == Some(k);
        if i2 < i {
            assert(looked_up_before(new, i, k));
        }
    }
    if looked_up_before(new, i, k) {
        let i2 = choose|i2: int| 0 <= i2 < i && new_key(new[i2], i2) == Some(k);
        assert(0 <= i2 < i + 1 && new_key(new[i2], i2) == Some(k));
    }
    if new_key(new[i], i) == Some(k) {
        assert(0 <= i < i + 1 && new_key(new[i], i) == Some(k));
    }
}

/// A key looked up before `n` was looked up a first time.
proof fn lemma_first_lookup(new: Seq<NewChild>, n: int, k: ChildKey) -> (i: int)
    requires
        0 <= n <= new.len(),
        looked_up_before(new, n, k),
    ensures
        0 <= i < n,
        new_key(new[i], i) == Some(k),
        !looked_up_before(new, i, k),
    decreases n,
{
    lemma_looked_up_step(new, n - 1, k);
    if looked_up_before(new, n - 1, k) {
        lemma_first_lookup(new, n - 1, k)
    } else {
        n - 1
    }
}

/// An old child is found by at most one new child.
proof fn lemma_found_once(old: Seq<OldChild>, new: Seq<NewChild>, i1: int, i2: int, j: int)
    requires
        0 <= i1 < new.len(),
        0 <= i2 < new.len(),
        found(old, new, i1) == Some(j),
        found(old, new, i2) == Some(j),
    ensures
        i1 == i2,
{
    lemma_found_key(old, new, i1, j);
    lemma_found_key(old, new, i2, j);
    let k = old_key(old[j]);
    if i1 < i2 {
        assert(0 <= i1 < i2 && new_key(new[i1], i1) == Some(k));
    } else if i2 < i1 {
        assert(0 <= i2 < i1 && new_key(new[i2], i2) == Some(k));
    }
}

fn compatible_exec(c: &OldChild, e: &NewChild) -> (r: bool)
    ensures
        r == compatible(*c, *e),
{
    match e {
        NewChild::Text => c.is_host_text,
        NewChild::Null => c.is_host_text,
        NewChild::Element { type_handle, .. } => c.type_handle == Some(*type_handle),
        _ => false,
    }
}

/// Reconciles the old children with an array of new children. Each new
/// child is matched with the old child of its key (its position when it has
/// none); a match of the right kind is reused, and otherwise a fiber is
/// created. With effects tracked, a created fiber is placed, a reused one is
/// placed when it moved before a reused one that came later in the old
/// order, and the old children that their key finds but nothing reuses are
/// deleted.
pub fn reconcile_children_array(
    current_children: &Vec<OldChild>,
    new_child: &Vec<NewChild>,
    should_track_effects: bool,
) -> (r: ChildrenPlan)
    requires
        new_child@.len() <= u32::MAX,
        forall|i: int| 0 <= i < new_child@.len() ==> new_child@[i] != NewChild::NotElementObject,
    ensures
        r.children@ == planned_children(current_children@, new_child@, new_child@.len() as int, should_track_effects),
        r.deletions@.no_duplicates(),
        forall|j: usize|
            j < current_children@.len() ==> (#[trigger] r.deletions@.contains(j) <==> should_track_effects
                && winner(current_children@, j as int) && !is_reused(current_children@, new_child@, j as int)),
        forall|x: int| 0 <= x < r.deletions@.len() ==> r.deletions@[x] < current_children@.len(),
{
    broadcast use vstd::std_specs::hash::group_hash_axioms;

    let ghost old = current_children@;
    let ghost new = new_child@;
    let mut existing: HashMap<u128, usize> = HashMap::new();
    let mut j: usize = 0;
    while j < current_children.len()
        invariant
            j <= old.len(),
            old == current_children@,
            forall|k: ChildKey| #[trigger] existing@.contains_key(key_number(k))
                <==> exists|x: int| 0 <= x < j && old_key(old[x]) == k,
            forall|k: ChildKey| #[trigger] existing@.contains_key(key_number(k)) ==> {
                let x = existing@[key_number(k)] as int;
                &&& 0 <= x < j
                &&& old_key(old[x]) == k
                &&& forall|x2: int| x < x2 < j ==> old_key(old[x2]) != k
            },
        decreases old.len() - j,
    {
        let k = key_of_old(&current_children[j]);
        existing.insert(key_number_of(k), j);
        proof {
            assert forall|k2: ChildKey| #[trigger] existing@.contains_key(key_number(k2))
                <==> exists|x: int| 0 <= x < j + 1 && old_key(old[x]) == k2 by {
                lemma_key_number_injective(k, k2);
                if k2 == k {
                    assert(0 <= j < j + 1 && old_key(old[j as int]) == k2);
                } else if exists|x: int| 0 <= x < j + 1 && old_key(old[x]) == k2 {
                    let x = choose|x: int| 0 <= x < j + 1 && old_key(old[x]) == k2;
                    assert(0 <= x < j && old_key(old[x]) == k2);
                }
            }
            assert forall|k2: ChildKey| #[trigger] existing@.contains_key(key_number(k2)) implies {
                let x = existing@[key_number(k2)] as int;
                &&& 0 <= x < j + 1
                &&& old_key(old[x]) == k2
                &&& forall|x2: int| x < x2 < j + 1 ==> old_key(old[x2]) != k2
            } by {
                lemma_key_number_injective(k, k2);
            }
        }
        j = j + 1;
    }
    proof {
        assert forall|k: ChildKey| #[trigger] existing@.contains_key(key_number(k))
            <==> exists|x: int| 0 <= x < old.len() && winner(old, x) && old_key(old[x]) == k by {
            if existing@.contains_key(key_number(k)) {
                let x = existing@[key_number(k)] as int;
                assert(winner(old, x));
            }
        }
    }
    let mut deletions: Vec<usize> = Vec::new();
    let mut children: Vec<PlacedChild> = Vec::new();
    let mut last_placed: u32 = 0;
    let mut i: usize = 0;
    while i < new_child.len()
        invariant
            i <= new.len(),
            old == current_children@,
            new == new_child@,
            new.len() <= u32::MAX,
            forall|x: int| 0 <= x < new.len() ==> new[x] != NewChild::NotElementObject,
            forall|k: ChildKey| #[trigger] existing@.contains_key(key_number(k))
                <==> (exists|x: int| 0 <= x < old.len() && winner(old, x) && old_key(old[x]) == k)
                && !looked_up_before(new, i as int, k),
            forall|k: ChildKey| #[trigger] existing@.contains_key(key_number(k)) ==> {
                let x = existing@[key_number(k)] as int;
                &&& 0 <= x < old.len()
                &&& winner(old, x)
                &&& old_key(old[x]) == k
            },
            deletions@.no_duplicates(),
            forall|y: int| 0 <= y < deletions@.len() ==> deletions@[y] < old.len(),
            forall|x: usize| x < old.len() ==> (#[trigger] deletions@.contains(x) <==> should_track_effects
                && exists|i2: int| 0 <= i2 < i && found(old, new, i2) == Some(x as int) && reused_at(old, new, i2) is None),
            children@ == planned_children(old, new, i as int, should_track_effects),
            last_placed == last_placed_index(old, new, i as int),
        decreases new.len() - i,
    {
        let e = new_child[i];
        let key = key_of_new(&e, i as u32);
        let ghost li = i as int;
        let ghost del_before = deletions@;
        let ghost map_before = existing@;
        let mut source = ChildSource::Created;
        match key {
            None => {},
            Some(k) => {
                let removed = existing.remove(&key_number_of(k));
                match removed {
                    Some(w) => {
                        proof {
                            let x = map_before[key_number(k)] as int;
                            assert(x == w);
                            let c = choose|c: int| 0 <= c < old.len() && winner(old, c) && old_key(old[c]) == k;
                            lemma_winner_unique(old, c, x);
                            assert(found(old, new, li) == Some(w as int));
                        }
                        if compatible_exec(&current_children[w], &e) {
                            source = ChildSource::Reused(w);
                        } else if should_track_effects {
                            proof {
                                if deletions@.contains(w) {
                                    let i2 = choose|i2: int| 0 <= i2 < li && found(old, new, i2) == Some(w as int) && reused_at(old, new, i2) is None;
                                    lemma_found_once(old, new, i2, li, w as int);
                                }
                            }
                            deletions.push(w);
                        }
                    },
                    None => {
                        assert(found(old, new, li) is None);
                    },
                }
            },
        }
        let produced = match e {
            NewChild::Text => true,
            NewChild::Element { .. } => true,
            NewChild::Null => match source {
                ChildSource::Reused(_) => true,
                ChildSource::Created => false,
            },
            _ => false,
        };
        proof {
            assert(source == (match reused_at(old, new, li) {
                Some(j) => ChildSource::Reused(j as usize),
                None => ChildSource::Created,
            }));
        }
        if produced {
            let mut placement = false;
            if should_track_effects {
                match source {
                    ChildSource::Reused(w) => {
                        let old_index = current_children[w].index;
                        if old_index < last_placed {
                            placement = true;
                        } else {
                            last_placed = old_index;
                        }
                    },
                    ChildSource::Created => {
                        placement = true;
                    },
                }
            } else {
                match source {
                    ChildSource::Reused(w) => {
                        let old_index = current_children[w].index;
                        if old_index >= last_placed {
                            last_placed = old_index;
                        }
                    },
                    ChildSource::Created => {},
                }
            }
            children.push(PlacedChild { index: i as u32, source, placement });
        }
        proof {
            assert forall|k2: ChildKey| #[trigger] existing@.contains_key(key_number(k2))
                <==> (exists|x: int| 0 <= x < old.len() && winner(old, x) && old_key(old[x]) == k2)
                && !looked_up_before(new, li + 1, k2) by {
                lemma_looked_up_step(new, li, k2);
                if key is Some {
                    lemma_key_number_injective(key->0, k2);
                }
            }
            assert forall|k2: ChildKey| #[trigger] existing@.contains_key(key_number(k2)) implies {
                let x = existing@[key_number(k2)] as int;
                &&& 0 <= x < old.len()
                &&& winner(old, x)
                &&& old_key(old[x]) == k2
            } by {
                assert(map_before.contains_key(key_number(k2)));
            }
            assert forall|y: int| 0 <= y < deletions@.len() implies deletions@[y] < old.len() by {
                if y < del_before.len() {
                    assert(deletions@[y] == del_before[y]);
                }
            }
            assert forall|x: usize| x < old.len() implies (#[trigger] deletions@.contains(x) <==> should_track_effects
                && exists|i2: int| 0 <= i2 < li + 1 && found(old, new, i2) == Some(x as int) && reused_at(old, new, i2) is None) by {
                if deletions@.contains(x) {
                    let y = choose|y: int| 0 <= y < deletions@.len() && deletions@[y] == x;
                    if y < del_before.len() {
                        assert(del_before.contains(x));
                        let i2 = choose|i2: int| 0 <= i2 < li && found(old, new, i2) == Some(x as int) && reused_at(old, new, i2) is None;
                        assert(0 <= i2 < li + 1);
                    } else {
                        assert(found(old, new, li) == Some(x as int) && reused_at(old, new, li) is None);
                    }
                }
                if should_track_effects && exists|i2: int| 0 <= i2 < li + 1 && found(old, new, i2) == Some(x as int) && reused_at(old, new, i2) is None {
                    let i2 = choose|i2: int| 0 <= i2 < li + 1 && found(old, new, i2) == Some(x as int) && reused_at(old, new, i2) is None;
                    if i2 < li {
                        assert(del_before.contains(x));
                        let y = choose|y: int| 0 <= y < del_before.len() && del_before[y] == x;
                        assert(deletions@[y] == x);
                    } else {
                        assert(deletions@[deletions@.len() - 1] == x);
                    }
                }
            }
            assert(children@ =~= planned_children(old, new, li + 1, should_track_effects));
        }
        i = i + 1;
    }
    if should_track_effects {
        let mut j: usize = 0;
        while j < current_children.len()
            invariant
                j <= old.len(),
                old == current_children@,
                new == new_child@,
                should_track_effects,
                forall|k: ChildKey| #[trigger] existing@.contains_key(key_number(k))
                    <==> (exists|x: int| 0 <= x < old.len() && winner(old, x) && old_key(old[x]) == k)
                    && !looked_up_before(new, new.len() as int, k),
                forall|k: ChildKey| #[trigger] existing@.contains_key(key_number(k)) ==> {
                    let x = existing@[key_number(k)] as int;
                    &&& 0 <= x < old.len()
                    &&& winner(old, x)
                    &&& old_key(old[x]) == k
                },
                deletions@.no_duplicates(),
                forall|y: int| 0 <= y < deletions@.len() ==> deletions@[y] < old.len(),
                forall|x: usize| x < old.len() ==> (#[trigger] deletions@.contains(x) <==> (exists|i2: int|
                    0 <= i2 < new.len() && found(old, new, i2) == Some(x as int) && reused_at(old, new, i2) is None)
                    || (x < j && winner(old, x as int) && !looked_up_before(new, new.len() as int, old_key(old[x as int])))),
            decreases old.len() - j,
        {
            let ghost del_before = deletions@;
            let k = key_of_old(&current_children[j]);
            let ghost kn = key_number(k);
            let here = match existing.get(&key_number_of(k)) {
                Some(w) => *w == j,
                None => false,
            };
            proof {
                if here {
                    assert(existing@.contains_key(kn));
                    assert(winner(old, j as int));
                } else if winner(old, j as int) && !looked_up_before(new, new.len() as int, k) {
                    assert(existing@.contains_key(kn));
                    lemma_winner_unique(old, j as int, existing@[kn] as int);
                }
                assert(here == (winner(old, j as int) && !looked_up_before(new, new.len() as int, k)));
            }
            if here {
                proof {
                    if del_before.contains(j) {
                        let i2 = choose|i2: int| 0 <= i2 < new.len() && found(old, new, i2) == Some(j as int) && reused_at(old, new, i2) is None;
                        lemma_found_key(old, new, i2, j as int);
                        assert(0 <= i2 < new.len() && new_key(new[i2], i2) == Some(k));
                    }
                }
                deletions.push(j);
            }
            proof {
                assert forall|y: int| 0 <= y < deletions@.len() implies deletions@[y] < old.len() by {
                    if y < del_before.len() {
                        assert(deletions@[y] == del_before[y]);
                    }
                }
                assert forall|x: usize| x < old.len() implies (#[trigger] deletions@.contains(x) <==> (exists|i2: int|
                    0 <= i2 < new.len() && found(old, new, i2) == Some(x as int) && reused_at(old, new, i2) is None)
                    || (x < j + 1 && winner(old, x as int) && !looked_up_before(new, new.len() as int, old_key(old[x as int])))) by {
                    if deletions@.contains(x) {
                        let y = choose|y: int| 0 <= y < deletions@.len() && deletions@[y] == x;
                        if y < del_before.len() {
                            assert(del_before.contains(x));
                        }
                    }
                    if del_before.contains(x) {
                        let y = choose|y: int| 0 <= y < del_before.len() && del_before[y] == x;
                        assert(deletions@[y] == x);
                    }
                    if x == j && here {
                        assert(deletions@[deletions@.len() - 1] == x);
                    }
                    if x < j && winner(old, x as int) && !looked_up_before(new, new.len() as int, old_key(old[x as int])) {
                        assert(del_before.contains(x));
                    }
                    if exists|i2: int| 0 <= i2 < new.len() && found(old, new, i2) == Some(x as int) && reused_at(old, new, i2) is None {
                        assert(del_before.contains(x));
                    }
                }
            }
            j = j + 1;
        }
    }
    proof {
        assert forall|x: usize| x < old.len() implies (#[trigger] deletions@.contains(x) <==> should_track_effects
            && winner(old, x as int) && !is_reused(old, new, x as int)) by {
            let k = old_key(old[x as int]);
            if should_track_effects && winner(old, x as int) && !is_reused(old, new, x as int) {
                if looked_up_before(new, new.len() as int, k) {
                    let i2 = lemma_first_lookup(new, new.len() as int, k);
                    assert(exists|c: int| 0 <= c < old.len() && winner(old, c) && old_key(old[c]) == k);
                    let c = choose|c: int| 0 <= c < old.len() && winner(old, c) && old_key(old[c]) == k;
                    lemma_winner_unique(old, c, x as int);
                    assert(found(old, new, i2) == Some(x as int));
                    if reused_at(old, new, i2) is Some {
                        assert(is_reused(old, new, x as int));
                    }
                }
            }
            if deletions@.contains(x) {
                if exists|i2: int| 0 <= i2 < new.len() && found(old, new, i2) == Some(x as int) && reused_at(old, new, i2) is None {
                    let i2 = choose|i2: int| 0 <= i2 < new.len() && found(old, new, i2) == Some(x as int) && reused_at(old, new, i2) is None;
                    lemma_found_key(old, new, i2, x as int);
                    if is_reused(old, new, x as int) {
                        let i3 = choose|i3: int| 0 <= i3 < new.len() && reused_at(old, new, i3) == Some(x as int);
                        assert(found(old, new, i3) == Some(x as int));
                        lemma_found_once(old, new, i2, i3, x as int);
                    }
                } else {
                    if is_reused(old, new, x as int) {
                        let i3 = choose|i3: int| 0 <= i3 < new.len() && reused_at(old, new, i3) == Some(x as int);
                        assert(found(old, new, i3) == Some(x as int));
                        lemma_found_key(old, new, i3, x as int);
                        assert(0 <= i3 < new.len() && new_key(new[i3], i3) == Some(k));
                    }
                }
            }
        }
    }
    ChildrenPlan { children, deletions }
}

/// The positions `0..n` in order, without `skip`.
pub open spec fn indices_except(n: int, skip: int) -> Seq<usize>
    decreases n,
{
    if n <= 0 {
        Seq::empty()
    } else if n - 1 == skip {
        indices_except(n - 1, skip)
    } else {
        indices_except(n - 1, skip).push((n - 1) as usize)
    }
}

/// The first old child with this key (`None` keys match each other), if any.
pub open spec fn first_key_match(old: Seq<OldChild>, key: Option<u64>) -> Option<int> {
    if exists|j: int| 0 <= j < old.len() && old[j].key == key && forall|j2: int| 0 <= j2 < j ==> old[j2].key != key {
        Some(choose|j: int| 0 <= j < old.len() && old[j].key == key && forall|j2: int| 0 <= j2 < j ==> old[j2].key != key)
    } else {
        None
    }
}

/// The first old child that is a host text node, if any.
pub open spec fn first_host_text(old: Seq<OldChild>) -> Option<int> {
    if exists|j: int| 0 <= j < old.len() && old[j].is_host_text && forall|j2: int| 0 <= j2 < j ==> !old[j2].is_host_text {
        Some(choose|j: int| 0 <= j < old.len() && old[j].is_host_text && forall|j2: int| 0 <= j2 < j ==> !old[j2].is_host_text)
    } else {
        None
    }
}

/// The plan of a single new child: reuse `reuse` if given (and delete every
/// other old child), or create a fiber (and delete every old child), placing
/// it when effects are tracked.
pub open spec fn single_plan(
    n: int,
    reuse: Option<int>,
    track: bool,
    children: Seq<PlacedChild>,
    deletions: Seq<usize>,
) -> bool {
    &&& deletions == (if track {
        indices_except(n, match reuse { Some(j) => j, None => -1 })
    } else {
        Seq::empty()
    })
    &&& children == seq![match reuse {
        Some(j) => PlacedChild { index: 0, source: ChildSource::Reused(j as usize), placement: false },
        None => PlacedChild { index: 0, source: ChildSource::Created, placement: track },
    }]
}

/// The positions of the old children, in order, without `skip`, when effects
/// are tracked; none otherwise.
fn deletions_except(n: usize, skip: Option<usize>, track: bool) -> (r: Vec<usize>)
    ensures
        r@ == (if track {
            indices_except(n as int, match skip { Some(j) => j as int, None => -1 })
        } else {
            Seq::empty()
        }),
{
    let mut r: Vec<usize> = Vec::new();
    if !track {
        return r;
    }
    let ghost s: int = match skip { Some(j) => j as int, None => -1 };
    let mut j: usize = 0;
    while j < n
        invariant
            j <= n,
            s == (match skip { Some(x) => x as int, None => -1 }),
            r@ == indices_except(j as int, s),
        decreases n - j,
    {
        let skipped = match skip {
            Some(x) => x == j,
            None => false,
        };
        if !skipped {
            r.push(j);
        }
        j = j + 1;
    }
    r
}

fn find_first_key(old: &Vec<OldChild>, key: Option<u64>) -> (r: Option<usize>)
    ensures
        r matches Some(j) ==> j < old@.len(),
        r == (match first_key_match(old@, key) { Some(j) => Some(j as usize), None => None }),
{
    let mut j: usize = 0;
    while j < old.len()
        invariant
            j <= old@.len(),
            forall|x: int| 0 <= x < j ==> old@[x].key != key,
        decreases old@.len() - j,
    {
        if old[j].key == key {
            proof {
                let c = choose|c: int| 0 <= c < old@.len() && old@[c].key == key && forall|j2: int| 0 <= j2 < c ==> old@[j2].key != key;
                assert(0 <= j < old@.len() && old@[j as int].key == key && forall|j2: int| 0 <= j2 < j ==> old@[j2].key != key);
                if c > j {
                    assert(old@[j as int].key == key);
                }
            }
            return Some(j);
        }
        j = j + 1;
    }
    None
}

fn find_first_host_text(old: &Vec<OldChild>) -> (r: Option<usize>)
    ensures
        r matches Some(j) ==> j < old@.len(),
        r == (match first_host_text(old@) { Some(j) => Some(j as usize), None => None }),
{
    let mut j: usize = 0;
    while j < old.len()
        invariant
            j <= old@.len(),
            forall|x: int| 0 <= x < j ==> !old@[x].is_host_text,
        decreases old@.len() - j,
    {
        if old[j].is_host_text {
            proof {
                let c = choose|c: int| 0 <= c < old@.len() && old@[c].is_host_text && forall|j2: int| 0 <= j2 < c ==> !old@[j2].is_host_text;
                assert(0 <= j < old@.len() && old@[j as int].is_host_text && forall|j2: int| 0 <= j2 < j ==> !old@[j2].is_host_text);
                if c > j {
                    assert(old@[j as int].is_host_text);
                }
            }
            return Some(j);
        }
        j = j + 1;
    }
    None
}

/// The old child a single element of `key` and type `type_handle` reuses:
/// the first old child of that key, when it has that type.
pub open spec fn single_element_reuse(old: Seq<OldChild>, key: Option<u64>, type_handle: u64) -> Option<int> {
    match first_key_match(old, key) {
        Some(j) => if old[j].type_handle == Some(type_handle) {
            Some(j)
        } else {
            None
        },
        None => None,
    }
}

/// Reconciles the old children with a single element of `key` and type
/// `type_handle`: the first old child of that key is reused if it has that
/// type; every other old child is deleted when effects are tracked.
pub fn reconcile_single_element(
    current_children: &Vec<OldChild>,
    key: Option<u64>,
    type_handle: u64,
    should_track_effects: bool,
) -> (r: ChildrenPlan)
    ensures
        single_plan(
            current_children@.len() as int,
            single_element_reuse(current_children@, key, type_handle),
            should_track_effects,
            r.children@,
            r.deletions@,
        ),
{
    let reuse = match find_first_key(current_children, key) {
        Some(j) => if current_children[j].type_handle == Some(type_handle) {
            Some(j)
        } else {
            None
        },
        None => None,
    };
    let deletions = deletions_except(current_children.len(), reuse, should_track_effects);
    let child = match reuse {
        Some(w) => PlacedChild { index: 0, source: ChildSource::Reused(w), placement: false },
        None => PlacedChild { index: 0, source: ChildSource::Created, placement: should_track_effects },
    };
    let mut children: Vec<PlacedChild> = Vec::new();
    children.push(child);
    proof {
        let old = current_children@;
        let reuse_spec = match first_key_match(old, key) {
            Some(j) => if old[j].type_handle == Some(type_handle) {
                Some(j)
            } else {
                None
            },
            None => None,
        };
        if let Some(j) = first_key_match(old, key) {
            assert(0 <= j < old.len() && old[j].key == key && forall|j2: int| 0 <= j2 < j ==> old[j2].key != key);
        }
        assert(reuse_spec == (match reuse { Some(w) => Some(w as int), None => None }));
        assert(children@ =~= seq![child]);
    }
    ChildrenPlan { children, deletions }
}

/// Reconciles the old children with a single text: the first old host text
/// node is reused; every other old child is deleted when effects are tracked.
pub fn reconcile_single_text_node(current_children: &Vec<OldChild>, should_track_effects: bool) -> (r: ChildrenPlan)
    ensures
        single_plan(
            current_children@.len() as int,
            first_host_text(current_children@),
            should_track_effects,
            r.children@,
            r.deletions@,
        ),
{
    let reuse = find_first_host_text(current_children);
    let deletions = deletions_except(current_children.len(), reuse, should_track_effects);
    let child = match reuse {
        Some(w) => PlacedChild { index: 0, source: ChildSource::Reused(w), placement: false },
        None => PlacedChild { index: 0, source: ChildSource::Created, placement: should_track_effects },
    };
    let mut children: Vec<PlacedChild> = Vec::new();
    children.push(child);
    proof {
        if let Some(j) = first_host_text(current_children@) {
            assert(0 <= j < current_children@.len() && current_children@[j].is_host_text);
        }
        assert(children@ =~= seq![child]);
    }
    ChildrenPlan { children, deletions }
}

/// What a component rendered as its children: a string or a number, an
/// array, a single element, or anything else (`None` included).
pub enum NewChildren {
    Text,
    Array(Vec<NewChild>),
    Element { key: Option<u64>, type_handle: u64 },
    Other,
}

/// `children` and `deletions` are the plan of reconciling the old children
/// with what was rendered (`new_child`): a text reuses the first old host
/// text, an element the first old child of its key when it has its type, an
/// array is planned child by child, and anything else leaves no child; the
/// old children that nothing reuses are deleted when effects are tracked.
pub open spec fn reconciled(
    old_children: Seq<OldChild>,
    new_child: NewChildren,
    track: bool,
    children: Seq<PlacedChild>,
    deletions: Seq<usize>,
) -> bool {
    &&& new_child is Text ==> single_plan(old_children.len() as int, first_host_text(old_children), track, children, deletions)
    &&& new_child matches NewChildren::Element { key, type_handle } ==> ({
        let reuse = match first_key_match(old_children, key) {
            Some(j) => if old_children[j].type_handle == Some(type_handle) {
                Some(j)
            } else {
                None
            },
            None => None,
        };
        single_plan(old_children.len() as int, reuse, track, children, deletions)
    })
    &&& new_child matches NewChildren::Array(a) ==> children == planned_children(old_children, a@, a@.len() as int, track)
        && (forall|j: usize|
        j < old_children.len() ==> (#[trigger] deletions.contains(j) <==> track && winner(old_children, j as int)
            && !is_reused(old_children, a@, j as int)))
    &&& new_child is Other ==> children.len() == 0 && deletions == (if track {
        indices_except(old_children.len() as int, -1)
    } else {
        Seq::empty()
    })
}

/// The shape of what was rendered can be reconciled: an array has at most
/// `u32::MAX` children, none of them an object that is no element.
pub open spec fn reconcilable(new_child: NewChildren) -> bool {
    new_child matches NewChildren::Array(a) ==> a@.len() <= u32::MAX && forall|i: int|
        0 <= i < a@.len() ==> a@[i] != NewChild::NotElementObject
}

/// Reconciles the old children with what was rendered; anything that is no
/// text, array or element leaves no child, and every old child is deleted
/// when effects are tracked.
pub fn reconcile_child_fibers(
    current_children: &Vec<OldChild>,
    new_child: &NewChildren,
    should_track_effects: bool,
) -> (r: ChildrenPlan)
    requires
        new_child matches NewChildren::Array(a) ==> a@.len() <= u32::MAX && forall|i: int|
            0 <= i < a@.len() ==> a@[i] != NewChild::NotElementObject,
    ensures
        reconciled(current_children@, *new_child, should_track_effects, r.children@, r.deletions@),
{
    match new_child {
        NewChildren::Text => reconcile_single_text_node(current_children, should_track_effects),
        NewChildren::Array(a) => reconcile_children_array(current_children, a, should_track_effects),
        NewChildren::Element { key, type_handle } => reconcile_single_element(
            current_children,
            *key,
            *type_handle,
            should_track_effects,
        ),
        NewChildren::Other => ChildrenPlan {
            children: Vec::new(),
            deletions: deletions_except(current_children.len(), None, should_track_effects),
        },
    }
}

/// No old child is reused by two new children.
pub proof fn lemma_reused_distinct(old: Seq<OldChild>, new: Seq<NewChild>, i1: int, i2: int)
    requires
        0 <= i1 < i2 < new.len(),
        reused_at(old, new, i1) is Some,
    ensures
        reused_at(old, new, i2) != reused_at(old, new, i1),
{
    if reused_at(old, new, i2) == reused_at(old, new, i1) {
        let j = reused_at(old, new, i1).unwrap();
        let k1 = new_key(new[i1], i1).unwrap();
        let k2 = new_key(new[i2], i2).unwrap();
        assert(old_key(old[j]) == k1);
        assert(old_key(old[j]) == k2);
        assert(looked_up_before(new, i2, k2));
        assert(false);
    }
}

/// The child fibers of the first `n` new children come from those children,
/// in order: each sits at the index of its new child, and a reused one is
/// the old child that new child reuses.
proof fn lemma_planned_sources(old: Seq<OldChild>, new: Seq<NewChild>, n: int, track: bool, k: int)
    requires
        0 <= n <= new.len(),
        new.len() <= u32::MAX,
        old.len() <= usize::MAX,
        0 <= k < planned_children(old, new, n, track).len(),
    ensures
        ({
            let c = planned_children(old, new, n, track)[k];
            &&& 0 <= c.index < n
            &&& c.source matches ChildSource::Reused(j) ==> reused_at(old, new, c.index as int) == Some(j as int)
        }),
    decreases n,
{
    assert(n > 0);
    let prev = planned_children(old, new, n - 1, track);
    if k < prev.len() {
        lemma_planned_sources(old, new, n - 1, track, k);
        assert(planned_children(old, new, n, track)[k] == prev[k]);
    } else {
        let i = n - 1;
        assert(produces(old, new, i));
        assert(k == prev.len());
        let c = planned_children(old, new, n, track)[k];
        assert(c.index as int == i);
        match reused_at(old, new, i) {
            Some(j) => {
                match found(old, new, i) {
                    Some(j2) => {
                        assert(0 <= j2 < old.len());
                        assert(j2 == j);
                        assert(c.source == ChildSource::Reused(j as usize));
                    },
                    None => {},
                }
            },
            None => {
                assert(c.source == ChildSource::Created);
            },
        }
    }
}

/// A reused old fiber always fits the new child it serves: a text (or a
/// `null` that keeps a fiber) only ever reuses an old host text node, and an
/// element only an old fiber of the same type; any other old fiber is not
/// reused for it (a new fiber is created and the old one is deleted).
pub proof fn lemma_reuse_fits_the_child(old: Seq<OldChild>, new: Seq<NewChild>, track: bool, k: int)
    requires
        new.len() <= u32::MAX,
        old.len() <= usize::MAX,
        0 <= k < planned_children(old, new, new.len() as int, track).len(),
    ensures
        ({
            let c = planned_children(old, new, new.len() as int, track)[k];
            c.source matches ChildSource::Reused(j) ==> {
                &&& j < old.len()
                &&& new_key(new[c.index as int], c.index as int) == Some(old_key(old[j as int]))
                &&& new[c.index as int] is Text ==> old[j as int].is_host_text
                &&& new[c.index as int] is Null ==> old[j as int].is_host_text
                &&& new[c.index as int] matches NewChild::Element { type_handle, .. } ==> old[j as int].type_handle
                    == Some(type_handle)
            }
        }),
{
    lemma_planned_sources(old, new, new.len() as int, track, k);
    let c = planned_children(old, new, new.len() as int, track)[k];
    match c.source {
        ChildSource::Reused(j) => {
            let i = c.index as int;
            assert(reused_at(old, new, i) == Some(j as int));
            match found(old, new, i) {
                Some(j2) => {
                    assert(j2 == j as int);
                    assert(0 <= j2 < old.len());
                    assert(compatible(old[j2], new[i]));
                },
                None => {},
            }
        },
        ChildSource::Created => {},
    }
}

/// A single element reuses only an old child of its key and its type, the
/// first of that key; when the first old child of its key has another type,
/// or no old child has its key, a new fiber is created.
pub proof fn lemma_single_element_reuse_fits(old: Seq<OldChild>, key: Option<u64>, type_handle: u64)
    ensures
        single_element_reuse(old, key, type_handle) matches Some(j) ==> {
            &&& 0 <= j < old.len()
            &&& old[j].key == key
            &&& old[j].type_handle == Some(type_handle)
            &&& forall|j2: int| 0 <= j2 < j ==> old[j2].key != key
        },
        single_element_reuse(old, key, type_handle) is None ==> forall|j: int|
            0 <= j < old.len() && old[j].key == key && old[j].type_handle == Some(type_handle) ==> exists|j2: int|
                0 <= j2 < j && old[j2].key == key,
{
    assert forall|j: int|
        0 <= j < old.len() && old[j].key == key && old[j].type_handle == Some(type_handle) && single_element_reuse(
            old,
            key,
            type_handle,
        ) is None implies exists|j2: int| 0 <= j2 < j && old[j2].key == key by {
        if !exists|j2: int| 0 <= j2 < j && old[j2].key == key {
            assert(forall|j2: int| 0 <= j2 < j ==> old[j2].key != key);
            let c = choose|c: int| 0 <= c < old.len() && old[c].key == key && forall|j2: int| 0 <= j2 < c ==> old[j2].key != key;
            if c < j {
                assert(old[c].key == key);
            } else if c > j {
                assert(old[j].key == key);
            }
        }
    }
}

/// A single text reuses only an old host text node, the first one; with no
/// old host text node a new fiber is created.
pub proof fn lemma_single_text_reuse_fits(old: Seq<OldChild>)
    ensures
        first_host_text(old) matches Some(j) ==> 0 <= j < old.len() && old[j].is_host_text && forall|j2: int|
            0 <= j2 < j ==> !old[j2].is_host_text,
        first_host_text(old) is None ==> forall|j: int| 0 <= j < old.len() ==> !old[j].is_host_text,
{
    assert forall|j: int| 0 <= j < old.len() && first_host_text(old) is None implies !old[j].is_host_text by {
        if old[j].is_host_text {
            lemma_first_text_exists(old, j);
        }
    }
}

proof fn lemma_first_text_exists(old: Seq<OldChild>, j: int)
    requires
        0 <= j < old.len(),
        old[j].is_host_text,
    ensures
        first_host_text(old) is Some,
    decreases j,
{
    if exists|j2: int| 0 <= j2 < j && old[j2].is_host_text {
        let j2 = choose|j2: int| 0 <= j2 < j && old[j2].is_host_text;
        lemma_first_text_exists(old, j2);
    } else {
        assert(0 <= j < old.len() && old[j].is_host_text && forall|j2: int| 0 <= j2 < j ==> !old[j2].is_host_text);
    }
}

} // verus!
