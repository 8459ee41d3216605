//! Kleisli composition on `Result`.
use vstd::prelude::*;

verus! {

/// Chaining of fallible steps.
pub trait Monadic<T, E>: Sized {
    /// Kleisli composition: an `Ok` value is handed to the function, whose
    /// result is the result; an error passes through untouched.
    fn kc<U, F: FnOnce(T) -> Result<U, E>>(self, func: F) -> Result<U, E>
        requires
            forall|t: T| #[trigger] func.requires((t,)),
    ;
}

impl<T, E> Monadic<T, E> for Result<T, E> {
    fn kc<U, F: FnOnce(T) -> Result<U, E>>(self, func: F) -> (r: Result<U, E>)
        ensures
            self matches Ok(t) ==> func.ensures((t,), r),
            self matches Err(e) ==> r == Err::<U, E>(e),
    {
        match self {
            Ok(t) => func(t),
            Err(e) => Err(e),
        }
    }
}

} // verus!
