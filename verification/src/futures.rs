//! Choosing between two outcomes.
use vstd::prelude::*;

verus! {

/// One of two values.
pub enum Either<A, B> {
    /// The first value.
    First(A),
    /// The second value.
    Second(B),
}

impl<A> Either<A, core::convert::Infallible> {
    /// The first value: no value of the second type exists, so the value is always the first.
    pub fn ignore_never_b(self) -> (r: A)
        requires
            self is First,
        ensures
            self matches Either::First(a) && r == a,
    {
        match self {
            Either::First(a) => a,
            Either::Second(_) => vstd::pervasive::unreached(),
        }
    }
}

impl<B> Either<core::convert::Infallible, B> {
    /// The second value: no value of the first type exists, so the value is always the second.
    pub fn ignore_never_a(self) -> (r: B)
        requires
            self is Second,
        ensures
            self matches Either::Second(b) && r == b,
    {
        match self {
            Either::First(_) => vstd::pervasive::unreached(),
            Either::Second(b) => b,
        }
    }
}

impl<A, B> Either<A, B> {
    /// The second value as success, the first as error.
    pub fn first_is_error(self) -> (r: Result<B, A>)
        ensures
            match self {
                Either::First(a) => r == Err::<B, A>(a),
                Either::Second(b) => r == Ok::<B, A>(b),
            },
    {
        match self {
            Either::First(a) => Err(a),
            Either::Second(b) => Ok(b),
        }
    }
}

} // verus!
