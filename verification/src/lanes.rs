use vstd::prelude::*;
use crate::scheduler::Priority;
use crate::scheduler::Scheduler;

verus! {

/// The bits of the lanes that exist: sync, input-continuous, default and idle.
pub const ALL_LANE_BITS: u32 = 0x4000_0007;

/// A set of update lanes, kept as a bit mask of the known lanes.
/// A lower bit is a higher priority.
#[derive(Debug, Clone, Copy, PartialEq, Eq, Structural)]
pub struct Lane {
    bits: u32,
}

/// Two's complement negation of `x` in 32 bits.
pub open spec fn neg_u32(x: u32) -> u32 {
    if x == 0 {
        0
    } else {
        (0x1_0000_0000 - x) as u32
    }
}

/// `r` is the lowest set bit of `x` (and zero when `x` is zero).
pub open spec fn is_lowest_bit(r: u32, x: u32) -> bool {
    &&& x == 0 ==> r == 0
    &&& x != 0 ==> {
        &&& r != 0
        &&& r & x == r
        &&& r & ((r - 1) as u32) == 0
        &&& x & ((r - 1) as u32) == 0
    }
}

impl Lane {
    /// The bit mask of this lane set.
    pub closed spec fn view(&self) -> u32 {
        self.bits
    }

    /// A lane set holds known lanes only.
    #[verifier::type_invariant]
    spec fn known_lanes(self) -> bool {
        self.bits & ALL_LANE_BITS == self.bits
    }


    /// The bit mask of this lane set.
    pub fn bits(&self) -> (r: u32)
        ensures
            r == self@,
    {
        self.bits
    }

    /// The lane set of the known lanes among `bits`; unknown bits are dropped.
    pub fn from_bits_truncate(bits: u32) -> (r: Lane)
        ensures
            r@ == bits & ALL_LANE_BITS,
    {
        let b = bits & ALL_LANE_BITS;
        assert(b & 0x4000_0007u32 == b) by (bit_vector)
            requires
                b == bits & 0x4000_0007u32,
        ;
        Lane { bits: b }
    }

    /// No lane.
    pub fn no_lane() -> (r: Lane)
        ensures
            r@ == 0,
    {
        assert(0u32 & 0x4000_0007u32 == 0u32) by (bit_vector);
        Lane { bits: 0 }
    }

    /// The lane of discrete user input such as a click.
    pub fn sync_lane() -> (r: Lane)
        ensures
            r@ == 1,
    {
        assert(1u32 & 0x4000_0007u32 == 1u32) by (bit_vector);
        Lane { bits: 1 }
    }

    /// The lane of continuous user input such as a scroll.
    pub fn input_continuous_lane() -> (r: Lane)
        ensures
            r@ == 2,
    {
        assert(2u32 & 0x4000_0007u32 == 2u32) by (bit_vector);
        Lane { bits: 2 }
    }

    /// The lane of ordinary updates.
    pub fn default_lane() -> (r: Lane)
        ensures
            r@ == 4,
    {
        assert(4u32 & 0x4000_0007u32 == 4u32) by (bit_vector);
        Lane { bits: 4 }
    }

    /// The lane of idle work.
    pub fn idle_lane() -> (r: Lane)
        ensures
            r@ == 0x4000_0000,
    {
        assert(0x4000_0000u32 & 0x4000_0007u32 == 0x4000_0000u32) by (bit_vector);
        Lane { bits: 0x4000_0000 }
    }

    /// The lanes of both sets.
    pub fn union(&self, other: &Lane) -> (r: Lane)
        ensures
            r@ == self@ | other@,
    {
        proof {
            use_type_invariant(self);
            use_type_invariant(other);
        }
        let (a, c) = (self.bits, other.bits);
        assert((a | c) & 0x4000_0007u32 == a | c) by (bit_vector)
            requires
                a & 0x4000_0007u32 == a,
                c & 0x4000_0007u32 == c,
        ;
        Lane { bits: a | c }
    }

    /// The lanes common to both sets.
    pub fn intersection(&self, other: &Lane) -> (r: Lane)
        ensures
            r@ == self@ & other@,
    {
        proof {
            use_type_invariant(self);
        }
        let (a, c) = (self.bits, other.bits);
        assert((a & c) & 0x4000_0007u32 == a & c) by (bit_vector)
            requires
                a & 0x4000_0007u32 == a,
        ;
        Lane { bits: a & c }
    }

    /// The lanes of `self` that `other` does not hold.
    pub fn difference(&self, other: &Lane) -> (r: Lane)
        ensures
            r@ == self@ & !other@,
    {
        proof {
            use_type_invariant(self);
        }
        let (a, c) = (self.bits, other.bits);
        assert((a & !c) & 0x4000_0007u32 == a & !c) by (bit_vector)
            requires
                a & 0x4000_0007u32 == a,
        ;
        Lane { bits: a & !c }
    }

    /// Whether every lane of `other` is in `self`.
    pub fn contains(&self, other: &Lane) -> (r: bool)
        ensures
            r == (self@ & other@ == other@),
    {
        (self.bits & other.bits) == other.bits
    }
}

/// Two lane sets are equal exactly when their bit masks are.
pub broadcast proof fn lemma_lane_view_injective(a: Lane, b: Lane)
    ensures
        #[trigger] a@ == #[trigger] b@ <==> a == b,
{
}

/// `x & -x` keeps exactly the lowest set bit of `x`.
pub proof fn lemma_lowest_bit(x: u32)
    ensures
        is_lowest_bit(x & neg_u32(x), x),
{
    let n = neg_u32(x);
    if x == 0 {
        assert(x & n == 0) by (bit_vector)
            requires
                x == 0,
        ;
    } else {
        assert(n == (0x1_0000_0000 - x) as u32);
        assert({
            let r = x & n;
            &&& r != 0
            &&& r & x == r
            &&& r & ((r - 1) as u32) == 0
            &&& x & ((r - 1) as u32) == 0
        }) by (bit_vector)
            requires
                x != 0,
                n == (0x1_0000_0000 - x) as u32,
        ;
    }
}

/// The highest-priority lane of `lanes`: its lowest set bit.
pub fn get_highest_priority(lanes: Lane) -> (r: Lane)
    ensures
        r@ == lanes@ & neg_u32(lanes@),
        r@ == (lanes@ & neg_u32(lanes@)) & ALL_LANE_BITS,
        is_lowest_bit(r@, lanes@),
{
    proof {
        use_type_invariant(&lanes);
    }
    let lanes = lanes.bits();
    let highest_priority = lanes & (0u32.wrapping_sub(lanes));
    proof {
        lemma_lowest_bit(lanes);
        let h = highest_priority;
        assert(h & ALL_LANE_BITS == h) by (bit_vector)
            requires
                h & lanes == h,
                lanes & 0x4000_0007u32 == lanes,
        ;
    }
    Lane::from_bits_truncate(highest_priority)
}

/// The union of two lane sets.
pub fn merge_lanes(lane_a: Lane, lane_b: Lane) -> (r: Lane)
    ensures
        r@ == lane_a@ | lane_b@,
{
    lane_a.union(&lane_b)
}

/// Whether the two lane sets share a lane.
pub fn include_some_lanes(set_a: Lane, set_b: Lane) -> (r: bool)
    ensures
        r == (set_a@ & set_b@ != 0),
{
    set_a.intersection(&set_b).bits() != 0
}

/// The lanes of `set` that are not in `subset`.
pub fn remove_lanes(set: Lane, subset: Lane) -> (r: Lane)
    ensures
        r@ == set@ & !subset@,
{
    set.difference(&subset)
}

/// Whether every lane of `subset` is in `set`.
pub fn is_subset_of_lanes(set: Lane, subset: Lane) -> (r: bool)
    ensures
        r == (set@ & subset@ == subset@),
{
    set.intersection(&subset) == subset
}

/// The lane that stands for a scheduler priority.
pub open spec fn priority_lane(p: Priority) -> u32 {
    match p {
        Priority::ImmediatePriority => 1,
        Priority::UserBlockingPriority => 2,
        Priority::NormalPriority => 4,
        _ => 0,
    }
}

/// The scheduler priority that serves a lane set, by its highest-priority lane.
pub open spec fn lanes_priority(lanes: u32) -> Priority {
    let lane = (lanes & neg_u32(lanes)) & ALL_LANE_BITS;
    if lane == 1 {
        Priority::ImmediatePriority
    } else if lane == 2 {
        Priority::UserBlockingPriority
    } else if lane == 4 {
        Priority::NormalPriority
    } else {
        Priority::IdlePriority
    }
}

/// The lane of an update made while the scheduler runs at its current priority.
pub fn request_update_lane(scheduler: &Scheduler) -> (r: Lane)
    ensures
        r@ == priority_lane(scheduler.current_priority()),
{
    let current_scheduler_priority_level = scheduler.unstable_get_current_priority_level();
    let update_lane = scheduler_priority_to_lane(current_scheduler_priority_level);
    update_lane
}

/// The lane that stands for a scheduler priority; low and idle work get no lane.
pub fn scheduler_priority_to_lane(scheduler_priority: Priority) -> (r: Lane)
    ensures
        r@ == priority_lane(scheduler_priority),
{
    match scheduler_priority {
        Priority::ImmediatePriority => Lane::sync_lane(),
        Priority::UserBlockingPriority => Lane::input_continuous_lane(),
        Priority::NormalPriority => Lane::default_lane(),
        _ => Lane::no_lane(),
    }
}

/// The scheduler priority that serves a lane set, by its highest-priority lane.
pub fn lanes_to_scheduler_priority(lanes: Lane) -> (r: Priority)
    ensures
        r == lanes_priority(lanes@),
{
    let lane = get_highest_priority(lanes);
    if lane == Lane::sync_lane() {
        return Priority::ImmediatePriority;
    } else if lane == Lane::input_continuous_lane() {
        return Priority::UserBlockingPriority;
    } else if lane == Lane::default_lane() {
        return Priority::NormalPriority;
    }
    Priority::IdlePriority
}

/// A priority that has a lane comes back unchanged from the lane.
pub proof fn lemma_priority_lane_round_trip(p: Priority)
    requires
        priority_lane(p) != 0,
    ensures
        lanes_priority(priority_lane(p)) == p,
{
    let l = priority_lane(p);
    assert(l == 1u32 || l == 2u32 || l == 4u32);
    assert((1u32 & 0xFFFF_FFFFu32) & 0x4000_0007u32 == 1) by (bit_vector);
    assert((2u32 & 0xFFFF_FFFEu32) & 0x4000_0007u32 == 2) by (bit_vector);
    assert((4u32 & 0xFFFF_FFFCu32) & 0x4000_0007u32 == 4) by (bit_vector);
}

/// A lane set served by the scheduler gets back, as its lane, its own
/// highest-priority lane.
pub proof fn lemma_lanes_priority_round_trip(lanes: u32)
    requires
        (lanes & neg_u32(lanes)) & ALL_LANE_BITS == 1
            || (lanes & neg_u32(lanes)) & ALL_LANE_BITS == 2
            || (lanes & neg_u32(lanes)) & ALL_LANE_BITS == 4,
    ensures
        priority_lane(lanes_priority(lanes)) == (lanes & neg_u32(lanes)) & ALL_LANE_BITS,
{
}

/// Merging two lane sets keeps every lane of each, and merging a set into a
/// set that holds it changes nothing.
pub proof fn lemma_merge_lanes_contains(a: u32, b: u32)
    ensures
        (a | b) & a == a,
        (a | b) & b == b,
        a | b == b | a,
        (a & b == b) ==> a | b == a,
{
    assert((a | b) & a == a) by (bit_vector);
    assert((a | b) & b == b) by (bit_vector);
    assert(a | b == b | a) by (bit_vector);
    assert((a & b == b) ==> a | b == a) by (bit_vector);
}

/// The highest-priority lane of a lane set is its own highest-priority
/// lane, and a lane set holds it.
pub proof fn lemma_highest_priority_idempotent(x: u32)
    ensures
        (x & neg_u32(x)) & neg_u32(x & neg_u32(x)) == x & neg_u32(x),
        x & (x & neg_u32(x)) == x & neg_u32(x),
{
    let n = neg_u32(x);
    let h = x & n;
    let m = neg_u32(h);
    if x == 0 {
        assert(x & n == 0) by (bit_vector)
            requires
                x == 0,
        ;
        assert(h & m == 0) by (bit_vector)
            requires
                h == 0,
        ;
        assert(x & h == h) by (bit_vector)
            requires
                x == 0,
                h == 0,
        ;
    } else {
        assert(h != 0 && h & m == h && x & h == h) by (bit_vector)
            requires
                x != 0,
                n == (0x1_0000_0000 - x) as u32,
                h == x & n,
                h != 0 ==> m == (0x1_0000_0000 - h) as u32,
                h == 0 ==> m == 0,
        ;
    }
}

} // verus!
