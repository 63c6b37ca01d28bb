use vstd::prelude::*;
use vstd::laws_cmp::obeys_cmp;
use vstd::laws_cmp::obeys_cmp_partial_ord;
use vstd::laws_cmp::obeys_cmp_ord;
use vstd::laws_cmp::obeys_partial_cmp_spec_properties;
use vstd::laws_eq::obeys_eq_spec_properties;
use core::cmp::Ordering;
use vstd::std_specs::cmp::PartialEqSpec;
use vstd::std_specs::cmp::PartialOrdSpec;
use vstd::std_specs::cmp::OrdSpec;

verus! {

/// The type's `Ord` implementation keeps the laws that std documents for
/// `Ord`: a total order, consistent with `PartialOrd` and `PartialEq`.
pub open spec fn total_order<T: Ord>() -> bool {
    obeys_cmp::<T>()
}

/// `a <= b` in the type's order.
pub open spec fn le<T: Ord>(a: T, b: T) -> bool {
    a.partial_cmp_spec(&b) matches Some(Ordering::Less | Ordering::Equal)
}

/// `a < b` in the type's order.
pub open spec fn lt<T: Ord>(a: T, b: T) -> bool {
    a.partial_cmp_spec(&b) == Some(Ordering::Less)
}

/// The operators `<`, `<=`, `>`, `>=` of `T` answer as `le` and `lt` say.
pub open spec fn operators_follow_order<T: Ord>() -> bool {
    T::obeys_partial_cmp_spec()
}

/// On a lawful `Ord` type the comparison operators follow the order.
pub proof fn lemma_operators<T: Ord>()
    requires
        total_order::<T>(),
    ensures
        operators_follow_order::<T>(),
{
    reveal(obeys_cmp_partial_ord);
}

/// Every value of a lawful order is a total, reflexive relation:
/// either `a <= b` or `b < a`, never both.
pub proof fn lemma_total<T: Ord>(a: T, b: T)
    requires
        total_order::<T>(),
    ensures
        le(a, b) || lt(b, a),
        !(le(a, b) && lt(b, a)),
        le(a, a),
        lt(a, b) ==> le(a, b),
{
    reveal(obeys_cmp_ord);
    reveal(obeys_partial_cmp_spec_properties);
    assert(a.partial_cmp_spec(&b) == Some(a.cmp_spec(&b)));
    assert(b.partial_cmp_spec(&a) == Some(b.cmp_spec(&a)));
    assert(a.partial_cmp_spec(&a) == Some(a.cmp_spec(&a)));
    assert(b.partial_cmp_spec(&a) == Some(Ordering::Less) <==> a.partial_cmp_spec(&b) == Some(Ordering::Greater));
    assert(a.partial_cmp_spec(&a) == Some(Ordering::Less) <==> a.partial_cmp_spec(&a) == Some(Ordering::Greater));
}

/// `<=` is transitive, and so is `<` once either step is strict.
pub proof fn lemma_trans<T: Ord>(a: T, b: T, c: T)
    requires
        total_order::<T>(),
        le(a, b),
        le(b, c),
    ensures
        le(a, c),
        lt(a, b) || lt(b, c) ==> lt(a, c),
{
    reveal(obeys_cmp_ord);
    reveal(obeys_partial_cmp_spec_properties);
    reveal(obeys_cmp_partial_ord);
    reveal(obeys_eq_spec_properties);
    assert(a.partial_cmp_spec(&b) == Some(a.cmp_spec(&b)));
    assert(b.partial_cmp_spec(&c) == Some(b.cmp_spec(&c)));
    assert(a.partial_cmp_spec(&c) == Some(a.cmp_spec(&c)));
    assert(c.partial_cmp_spec(&a) == Some(c.cmp_spec(&a)));
    assert(b.partial_cmp_spec(&a) == Some(b.cmp_spec(&a)));
    assert(c.partial_cmp_spec(&b) == Some(c.cmp_spec(&b)));
    assert(a.partial_cmp_spec(&c) == Some(Ordering::Greater) <==> c.partial_cmp_spec(&a) == Some(Ordering::Less));
    assert(a.partial_cmp_spec(&b) == Some(Ordering::Equal) <==> a.eq_spec(&b));
    assert(b.partial_cmp_spec(&c) == Some(Ordering::Equal) <==> b.eq_spec(&c));
    assert(a.partial_cmp_spec(&c) == Some(Ordering::Equal) <==> a.eq_spec(&c));
    assert(b.partial_cmp_spec(&a) == Some(Ordering::Equal) <==> b.eq_spec(&a));
    assert(c.partial_cmp_spec(&b) == Some(Ordering::Equal) <==> c.eq_spec(&b));
    assert(c.partial_cmp_spec(&a) == Some(Ordering::Equal) <==> c.eq_spec(&a));
}

/// Pairs of a sort index and an id, compared first by sort index and then
/// by id, form a lawful order.
pub proof fn lemma_key_order()
    ensures
        total_order::<(i64, u32)>(),
{
    broadcast use vstd::laws_cmp::group_laws_cmp;
}

/// Keys compare by sort index first and by id on a tie.
pub proof fn lemma_key_le(a: (i64, u32), b: (i64, u32))
    ensures
        le(a, b) <==> (a.0 < b.0 || (a.0 == b.0 && a.1 <= b.1)),
{
}

} // verus!
