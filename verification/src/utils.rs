//! Small conversions shared across the library.

use vstd::prelude::*;

use crate::errors::Error;

verus! {

/// Turns an optional value into a result. The extractor's convention for
/// the absent case is a parse failure: a walk found no node or fragment
/// where one was owed.
pub trait IntoAnyResult<T>: Sized {
    spec fn spec_into_any_result(self) -> Result<T, Error>;

    fn into_any_result(self) -> (r: Result<T, Error>)
        ensures
            r == self.spec_into_any_result(),
    ;
}

impl<T> IntoAnyResult<T> for Option<T> {
    open spec fn spec_into_any_result(self) -> Result<T, Error> {
        match self {
            Option::Some(v) => Ok(v),
            Option::None => Err(Error::ParseError),
        }
    }

    fn into_any_result(self) -> (r: Result<T, Error>) {
        match self {
            Option::Some(v) => Ok(v),
            Option::None => Err(Error::ParseError),
        }
    }
}

} // verus!
