//! The success-or-failure shape shared by `Option` and `Result`, which the
//! fallible allocation protocol rewinds on.

use vstd::prelude::*;

verus! {

/// A value that is either a success or a failure, as `Option` and `Result`
/// are.  The fallible allocation protocol frees the allocation it made when
/// the closure's value is a failure.
pub trait Try: Sized {
    type Output;

    type Residual;

    /// Whether this value counts as a success.
    spec fn spec_is_success(&self) -> bool;

    /// Tests whether this value counts as a success.
    fn is_success(&self) -> (r: bool)
        ensures
            r == self.spec_is_success(),
    ;

    /// Splits the value into its success or failure payload.
    fn into_result(self) -> (r: Result<Self::Output, Self::Residual>)
        ensures
            r is Ok <==> self.spec_is_success(),
    ;
}

impl<T> Try for Option<T> {
    type Output = T;

    type Residual = Option<core::convert::Infallible>;

    open spec fn spec_is_success(&self) -> bool {
        self is Some
    }

    fn is_success(&self) -> (r: bool) {
        self.is_some()
    }

    fn into_result(self) -> (r: Result<Self::Output, Self::Residual>) {
        match self {
            Some(value) => Ok(value),
            None => Err(None),
        }
    }
}

impl<T, E> Try for Result<T, E> {
    type Output = T;

    type Residual = E;

    open spec fn spec_is_success(&self) -> bool {
        self is Ok
    }

    fn is_success(&self) -> (r: bool) {
        self.is_ok()
    }

    fn into_result(self) -> (r: Result<Self::Output, Self::Residual>) {
        self
    }
}

} // verus!
