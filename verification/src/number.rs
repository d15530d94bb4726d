use std::ops::{Add, Div, Mul, Sub};
use vstd::prelude::*;
use vstd::std_specs::convert::FromSpec;
use vstd::std_specs::ops::{AddSpec, DivSpec, MulSpec, SubSpec};

verus! {

/// What a type of observations offers: copies, comparison, the four
/// arithmetic operators and a conversion from counts.
pub trait Number: Copy + PartialOrd + From<i32> + Add<Output = Self> + Sub<Output = Self> + Mul<
    Output = Self,
> + Div<Output = Self> {

}

impl<T> Number for T where
    T: Copy + PartialOrd + From<i32> + Add<Output = T> + Sub<Output = T> + Mul<Output = T> + Div<
        Output = T,
    >,
 {

}

/// The operators of `T` return what their specifications say: `==`, `<`,
/// `>`, `+`, `-`, `*`, `/` and the conversion from `i32`.
pub open spec fn specified<T: Number>() -> bool {
    &&& crate::order::comparable::<T>()
    &&& <T as FromSpec<i32>>::obeys_from_spec()
    &&& <T as AddSpec>::obeys_add_spec()
    &&& <T as SubSpec>::obeys_sub_spec()
    &&& <T as MulSpec>::obeys_mul_spec()
    &&& <T as DivSpec>::obeys_div_spec()
}

/// The number that stands for `count`.
pub open spec fn counted<T: Number>(count: i32) -> T {
    <T as FromSpec<i32>>::from_spec(count)
}

/// `x * x`.
pub open spec fn squared<T: Number>(x: T) -> T {
    x.mul_spec(x)
}

/// A running sum after `old_item` left it, if there is one, and `new_item`
/// came in: the subtraction first, then the addition.
pub open spec fn replaced<T: Number>(sum: T, old_item: Option<T>, new_item: T) -> T {
    match old_item {
        Some(value) => sum.sub_spec(value).add_spec(new_item),
        None => sum.add_spec(new_item),
    }
}

/// `T` can compute `replaced(sum, old_item, new_item)`: for a machine integer,
/// no step overflows.
pub open spec fn can_replace<T: Number>(sum: T, old_item: Option<T>, new_item: T) -> bool {
    match old_item {
        Some(value) => sum.sub_req(value) && sum.sub_spec(value).add_req(new_item),
        None => sum.add_req(new_item),
    }
}

/// The 64-bit signed integers are specified.
pub proof fn lemma_i64_specified()
    ensures
        specified::<i64>(),
{
}

} // verus!
