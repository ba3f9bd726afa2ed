//! What the library asks of rayon's worker pool, and what it takes on trust
//! about the answers.

use vstd::prelude::*;
use rayon::iter::{IntoParallelIterator, ParallelIterator};

verus! {

/// The shape of one parallel reduction: which items were combined with
/// which, and where identity values were put in. Rayon decides the shape
/// anew on every run; the order of the items from left to right is always
/// that of their numbers.
pub enum Reduction {
    /// An identity value.
    Identity,
    /// The item made from this number.
    Item(u32),
    /// Two reductions combined, the left one as first operand.
    Combined(Box<Reduction>, Box<Reduction>),
}

/// The numbers whose items enter a reduction, from left to right.
pub open spec fn items(shape: Reduction) -> Seq<u32>
    decreases shape,
{
    match shape {
        Reduction::Identity => Seq::empty(),
        Reduction::Item(number) => seq![number],
        Reduction::Combined(left, right) => items(*left) + items(*right),
    }
}

/// `value` is a possible outcome of carrying out the reduction `shape` with
/// `make` producing the items, `identity` the identity values and `combine`
/// the combinations.
pub open spec fn yields<T, F: Fn(u32) -> T, I: Fn() -> T, C: Fn(T, T) -> T>(
    shape: Reduction,
    make: F,
    identity: I,
    combine: C,
    value: T,
) -> bool
    decreases shape,
{
    match shape {
        Reduction::Identity => call_ensures(identity, (), value),
        Reduction::Item(number) => call_ensures(make, (number,), value),
        Reduction::Combined(left, right) => exists|a: T, b: T|
            yields(*left, make, identity, combine, a) && yields(*right, make, identity, combine, b)
                && #[trigger] call_ensures(combine, (a, b), value),
    }
}

/// The numbers below `count`, in increasing order.
pub open spec fn range(count: nat) -> Seq<u32> {
    Seq::new(count, |i: int| i as u32)
}

/// `out` is a possible outcome of reducing the items of all numbers below
/// `count`, taken in their order, in a shape of whatever kind.
pub open spec fn is_reduction_of<T, F: Fn(u32) -> T, I: Fn() -> T, C: Fn(T, T) -> T>(
    out: T,
    count: nat,
    make: F,
    identity: I,
    combine: C,
) -> bool {
    exists|shape: Reduction|
        items(shape) == range(count) && #[trigger] yields(shape, make, identity, combine, out)
}

/// Applies `make` to every number below `count` on rayon's worker pool and
/// collects what it returns.
///
/// Trusted: `into_par_iter` on a range of `u32`, `map` and `collect` into a
/// `Vec` hand back one result of `make` per number, in the order of the
/// numbers.
#[verifier::external_body]
pub(crate) fn par_map_range<T: Send, F: Fn(u32) -> T + Sync + Send>(count: u32, make: F) -> (out:
    Vec<T>)
    requires
        forall|i: u32| i < count ==> call_requires(make, (i,)),
    ensures
        out.len() == count,
        forall|i: int| 0 <= i < count ==> call_ensures(make, (i as u32,), #[trigger] out[i]),
{
    (0..count).into_par_iter().map(make).collect()
}

/// Applies `make` to every number below `count` on rayon's worker pool and
/// reduces what it returns to one value with `combine`.
///
/// Trusted: `into_par_iter` on a range of `u32`, `map` and `reduce` hand
/// back the outcome of some reduction over the items of all numbers below
/// `count`, taken in their order. Nothing is claimed of its shape.
#[verifier::external_body]
pub(crate) fn par_reduce_range<
    T: Send,
    F: Fn(u32) -> T + Sync + Send,
    I: Fn() -> T + Sync + Send,
    C: Fn(T, T) -> T + Sync + Send,
>(count: u32, make: F, identity: I, combine: C) -> (out: T)
    requires
        forall|i: u32| i < count ==> call_requires(make, (i,)),
        call_requires(identity, ()),
        forall|a: T, b: T| call_requires(combine, (a, b)),
    ensures
        is_reduction_of(out, count as nat, make, identity, combine),
{
    (0..count).into_par_iter().map(make).reduce(identity, combine)
}

} // verus!
