//! Turning Rust values into a [Value].
use vstd::prelude::*;

use crate::data::value::{SpecValue, Value};

verus! {

/// A data structure that can be generate into a [Value].
pub trait Generable {
    /// Whether [Generable::generated] tells what values of this type are
    /// generated into. Every implementation in this crate says so; one that
    /// does not claims nothing.
    open spec fn obeys_generated_spec() -> bool {
        false
    }

    /// The model of the [Value] that `self` is generated into, where the
    /// type obeys it.
    open spec fn generated(&self) -> SpecValue {
        SpecValue::Void
    }

    /// Generate [Value].
    fn generate(self) -> (v: Value)
        where Self: Sized
        ensures
            Self::obeys_generated_spec() ==> v@ == self.generated(),
    ;

    /// Generate [Value] with ref.
    fn generate_ref(&self) -> (v: Value)
        ensures
            Self::obeys_generated_spec() ==> v@ == self.generated(),
    ;
}

} // verus!
