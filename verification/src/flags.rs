use vstd::prelude::*;

verus! {

/// The bits of the fiber flags that exist.
pub const ALL_FLAG_BITS: u16 = 0x107F;

/// Effect flags of a fiber, kept as a bit mask of the known flags.
#[derive(Debug, Clone, Copy, PartialEq, Eq, Structural)]
pub struct Flags {
    bits: u16,
}

impl Flags {
    /// The bit mask of this flag set.
    pub closed spec fn view(&self) -> u16 {
        self.bits
    }

    /// A flag set holds known flags only.
    #[verifier::type_invariant]
    spec fn known_flags(self) -> bool {
        self.bits & ALL_FLAG_BITS == self.bits
    }

    /// The bit mask of this flag set: known flags only.
    pub fn bits(&self) -> (r: u16)
        ensures
            r == self@,
            r & ALL_FLAG_BITS == r,
    {
        proof {
            use_type_invariant(self);
        }
        self.bits
    }

    /// The flag set of the known flags among `bits`; unknown bits are dropped.
    pub fn from_bits_truncate(bits: u16) -> (r: Flags)
        ensures
            r@ == bits & ALL_FLAG_BITS,
    {
        assert((bits & 0x107Fu16) & 0x107Fu16 == bits & 0x107Fu16) by (bit_vector);
        Flags { bits: bits & ALL_FLAG_BITS }
    }

    /// No flag.
    pub fn no_flags() -> (r: Flags)
        ensures
            r@ == 0,
    {
        proof {
            lemma_known_flag_constants();
        }
        Flags { bits: 0 }
    }

    /// The fiber's node must be inserted into the host tree.
    pub fn placement() -> (r: Flags)
        ensures
            r@ == 0x1,
    {
        proof {
            lemma_known_flag_constants();
        }
        Flags { bits: 0x1 }
    }

    /// The fiber's node must be updated.
    pub fn update() -> (r: Flags)
        ensures
            r@ == 0x2,
    {
        proof {
            lemma_known_flag_constants();
        }
        Flags { bits: 0x2 }
    }

    /// Children of the fiber must be deleted.
    pub fn child_deletion() -> (r: Flags)
        ensures
            r@ == 0x4,
    {
        proof {
            lemma_known_flag_constants();
        }
        Flags { bits: 0x4 }
    }

    /// The fiber has passive effects (`useEffect`) to run.
    pub fn passive_effect() -> (r: Flags)
        ensures
            r@ == 0x8,
    {
        proof {
            lemma_known_flag_constants();
        }
        Flags { bits: 0x8 }
    }

    /// The fiber's ref must be attached or detached.
    pub fn ref_flag() -> (r: Flags)
        ensures
            r@ == 0x10,
    {
        proof {
            lemma_known_flag_constants();
        }
        Flags { bits: 0x10 }
    }

    /// The fiber's visibility changed.
    pub fn visibility() -> (r: Flags)
        ensures
            r@ == 0x20,
    {
        proof {
            lemma_known_flag_constants();
        }
        Flags { bits: 0x20 }
    }

    /// A suspense boundary captured a suspension.
    pub fn did_capture() -> (r: Flags)
        ensures
            r@ == 0x40,
    {
        proof {
            lemma_known_flag_constants();
        }
        Flags { bits: 0x40 }
    }

    /// A suspense boundary must capture a suspension.
    pub fn should_capture() -> (r: Flags)
        ensures
            r@ == 0x1000,
    {
        proof {
            lemma_known_flag_constants();
        }
        Flags { bits: 0x1000 }
    }

    /// The flags handled in the layout phase: the ref flag.
    pub fn layout_mask() -> (r: Flags)
        ensures
            r@ == 0x10,
    {
        proof {
            lemma_known_flag_constants();
        }
        Flags { bits: 0x10 }
    }

    /// Effect tag: the effect must run.
    pub fn hook_has_effect() -> (r: Flags)
        ensures
            r@ == 0x1,
    {
        proof {
            lemma_known_flag_constants();
        }
        Flags { bits: 0x1 }
    }

    /// Effect tag: a passive effect (`useEffect`).
    pub fn passive() -> (r: Flags)
        ensures
            r@ == 0x2,
    {
        proof {
            lemma_known_flag_constants();
        }
        Flags { bits: 0x2 }
    }

    /// The flags of both sets.
    pub fn union(&self, other: &Flags) -> (r: Flags)
        ensures
            r@ == self@ | other@,
    {
        proof {
            use_type_invariant(self);
            use_type_invariant(other);
        }
        let (a, c) = (self.bits, other.bits);
        assert((a | c) & 0x107Fu16 == a | c) by (bit_vector)
            requires
                a & 0x107Fu16 == a,
                c & 0x107Fu16 == c,
        ;
        Flags { bits: a | c }
    }

    /// The flags common to both sets.
    pub fn intersection(&self, other: &Flags) -> (r: Flags)
        ensures
            r@ == self@ & other@,
    {
        proof {
            use_type_invariant(self);
        }
        let (a, c) = (self.bits, other.bits);
        assert((a & c) & 0x107Fu16 == a & c) by (bit_vector)
            requires
                a & 0x107Fu16 == a,
        ;
        Flags { bits: a & c }
    }

    /// The flags of `self` that `other` does not hold.
    pub fn difference(&self, other: &Flags) -> (r: Flags)
        ensures
            r@ == self@ & !other@,
    {
        proof {
            use_type_invariant(self);
        }
        let (a, c) = (self.bits, other.bits);
        assert((a & !c) & 0x107Fu16 == a & !c) by (bit_vector)
            requires
                a & 0x107Fu16 == a,
        ;
        Flags { bits: a & !c }
    }

    /// Whether every flag of `other` is in `self`.
    pub fn contains(&self, other: &Flags) -> (r: bool)
        ensures
            r == (self@ & other@ == other@),
    {
        (self.bits & other.bits) == other.bits
    }

    /// Whether `self` and `other` share a flag.
    pub fn intersects(&self, other: &Flags) -> (r: bool)
        ensures
            r == (self@ & other@ != 0),
    {
        (self.bits & other.bits) != 0
    }
}

/// The single flags and the empty set are known flags.
proof fn lemma_known_flag_constants()
    ensures
        0u16 & ALL_FLAG_BITS == 0u16,
        0x1u16 & ALL_FLAG_BITS == 0x1u16,
        0x2u16 & ALL_FLAG_BITS == 0x2u16,
        0x4u16 & ALL_FLAG_BITS == 0x4u16,
        0x8u16 & ALL_FLAG_BITS == 0x8u16,
        0x10u16 & ALL_FLAG_BITS == 0x10u16,
        0x20u16 & ALL_FLAG_BITS == 0x20u16,
        0x40u16 & ALL_FLAG_BITS == 0x40u16,
        0x1000u16 & ALL_FLAG_BITS == 0x1000u16,
{
    assert(0u16 & 0x107Fu16 == 0u16 && 0x1u16 & 0x107Fu16 == 0x1u16 && 0x2u16 & 0x107Fu16 == 0x2u16
        && 0x4u16 & 0x107Fu16 == 0x4u16 && 0x8u16 & 0x107Fu16 == 0x8u16 && 0x10u16 & 0x107Fu16 == 0x10u16
        && 0x20u16 & 0x107Fu16 == 0x20u16 && 0x40u16 & 0x107Fu16 == 0x40u16
        && 0x1000u16 & 0x107Fu16 == 0x1000u16) by (bit_vector);
}

/// Two flag sets are equal exactly when their bit masks are.
pub broadcast proof fn lemma_flags_view_injective(a: Flags, b: Flags)
    ensures
        #[trigger] a@ == #[trigger] b@ <==> a == b,
{
}

/// The flags that need work in the mutation phase: placement, update and deletion.
pub fn get_mutation_mask() -> (r: Flags)
    ensures
        r@ == 0x7,
{
    let r = Flags::placement().union(&Flags::update()).union(&Flags::child_deletion());
    assert(0x1u16 | 0x2u16 | 0x4u16 == 0x7u16) by (bit_vector);
    r
}

/// The flags that need passive-effect work: passive effects and deletion.
pub fn get_passive_mask() -> (r: Flags)
    ensures
        r@ == 0xC,
{
    let r = Flags::passive_effect().union(&Flags::child_deletion());
    assert(0x8u16 | 0x4u16 == 0xCu16) by (bit_vector);
    r
}

/// The flags that an unwound fiber keeps: mutation, layout, passive and capture.
pub fn get_host_effect_mask() -> (r: Flags)
    ensures
        r@ == 0x5F,
{
    let r = get_mutation_mask().union(&Flags::layout_mask()).union(&get_passive_mask()).union(
        &Flags::did_capture(),
    );
    assert(0x7u16 | 0x10u16 | 0xCu16 | 0x40u16 == 0x5Fu16) by (bit_vector);
    r
}

/// The flags of a suspense boundary being unwound: when it must capture and has
/// not captured yet, the capture request turns into a capture and the boundary
/// renders again (`Some`); otherwise unwinding goes on past it (`None`).
pub fn unwind_suspense_flags(flags: Flags) -> (r: Option<Flags>)
    ensures
        (flags@ & 0x1000 != 0 && flags@ & 0x40 == 0) ==> r is Some && r.unwrap()@ == (flags@
            & !0x1000u16) | 0x40,
        !(flags@ & 0x1000 != 0 && flags@ & 0x40 == 0) ==> r is None,
{
    if flags.intersection(&Flags::should_capture()) != Flags::no_flags()
        && flags.intersection(&Flags::did_capture()) == Flags::no_flags()
    {
        return Some(flags.difference(&Flags::should_capture()).union(&Flags::did_capture()));
    }
    None
}

} // verus!
