//! Reading Rust values out of a [Value].
use vstd::prelude::*;

use crate::data::value::{SpecValue, Value};
use crate::error::{CastError, SpecCastError};

verus! {

/// The outcome of a parse, its error taken by its model.
pub open spec fn outcome<T>(r: Result<T, CastError>) -> Result<T, SpecCastError> {
    match r {
        Ok(x) => Ok(x),
        Err(e) => Err(e@),
    }
}

/// A data structure that can be initialized from a [Value].
pub trait Parseable: Sized {
    /// Whether `r` is an outcome of parsing a value whose model is `v`.
    ///
    /// Every implementation in this crate states its outcomes exactly; one
    /// that does not restates nothing, and so claims nothing.
    open spec fn parsed_from(v: SpecValue, r: Result<Self, SpecCastError>) -> bool {
        true
    }

    /// Parse from [Value].
    fn parse(v: Value) -> (r: Result<Self, CastError>)
        ensures
            Self::parsed_from(v@, outcome(r)),
    ;
}

} // verus!
