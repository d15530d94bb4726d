use core::cmp::Ordering;
use vstd::prelude::*;
use vstd::std_specs::cmp::{PartialEqSpec, PartialOrdSpec};

verus! {

/// `a > b`, as the comparison of `T` is specified.
pub open spec fn above<T: PartialOrd>(a: T, b: T) -> bool {
    a.partial_cmp_spec(&b) == Some(Ordering::Greater)
}

/// `a < b`, as the comparison of `T` is specified.
pub open spec fn below<T: PartialOrd>(a: T, b: T) -> bool {
    a.partial_cmp_spec(&b) == Some(Ordering::Less)
}

/// `a == b`, as the equality of `T` is specified.
pub open spec fn alike<T: PartialOrd>(a: T, b: T) -> bool {
    a.eq_spec(&b)
}

/// The operators `==`, `<` and `>` of `T` return what `alike`, `below` and
/// `above` say.
pub open spec fn comparable<T: PartialOrd>() -> bool {
    T::obeys_eq_spec() && T::obeys_partial_cmp_spec()
}

/// `T` is ordered like numbers are: `>` is asymmetric, `<` is its converse,
/// "not greater" is transitive, and two values are equal exactly when neither
/// is greater than the other.
pub open spec fn ordered<T: PartialOrd>() -> bool {
    &&& comparable::<T>()
    &&& forall|a: T, b: T| #[trigger] below(a, b) <==> above(b, a)
    &&& forall|a: T, b: T| #[trigger] above(a, b) ==> !above(b, a)
    &&& forall|a: T, b: T, c: T|
        !#[trigger] above(a, b) && !#[trigger] above(b, c) ==> !above(a, c)
    &&& forall|a: T, b: T| #[trigger] alike(a, b) <==> !above(a, b) && !above(b, a)
}

/// The primitive signed integers are ordered.
pub proof fn lemma_signed_integers_ordered()
    ensures
        ordered::<i8>(),
        ordered::<i16>(),
        ordered::<i32>(),
        ordered::<i64>(),
        ordered::<i128>(),
{
}

/// The primitive unsigned integers are ordered.
pub proof fn lemma_unsigned_integers_ordered()
    ensures
        ordered::<u8>(),
        ordered::<u16>(),
        ordered::<u32>(),
        ordered::<u64>(),
        ordered::<u128>(),
{
}

} // verus!
