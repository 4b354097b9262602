//! Calls whose results are known to come of the call.
//!
//! Where nothing can be said of what a function returns, because it rests on the clock or on chance,
//! it can still be said that a value is one that the function returned.

use vstd::prelude::*;

verus! {

/// Calls a function without arguments, and vouches that the result is one that it gave.
pub(crate) fn result_of<R, F: Fn() -> R>(f: F) -> (r: R)
    requires
        call_requires(f, ()),
    ensures
        call_ensures(f, (), r),
{
    f()
}

/// Calls a function with two arguments, and vouches that the result is one that it gave.
pub(crate) fn result_of_two<A, B, R, F: Fn(A, B) -> R>(f: F, a: A, b: B) -> (r: R)
    requires
        call_requires(f, (a, b)),
    ensures
        call_ensures(f, (a, b), r),
{
    f(a, b)
}

/// Calls a function with one argument, and vouches that the result is one that it gave.
pub(crate) fn result_of_one<A, R, F: Fn(A) -> R>(f: F, a: A) -> (r: R)
    requires
        call_requires(f, (a,)),
    ensures
        call_ensures(f, (a,), r),
{
    f(a)
}

} // verus!
