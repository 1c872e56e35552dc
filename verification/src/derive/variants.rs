//! Which variant of an enum a derived `Parse` reads a value as.
use vstd::prelude::*;

use crate::data::value::{lemma_values_view, SpecValue, Value};
use crate::error::CastError;
use crate::text::same_text;

verus! {

/// The fields of an enum variant, as far as choosing it goes.
#[derive(Debug, PartialEq, Eq, Clone, Copy, Structural)]
pub enum VariantShape {
    /// No field: read from a string equal to its name.
    Unit,
    /// That many unnamed fields: read from an array of that length.
    Tuple(usize),
    /// Named fields: read from an object.
    Named,
}

/// Whether the variant named `name`, of shape `shape`, takes the value `v`,
/// `read` telling whether reading its fields out of `v` succeeds.
pub open spec fn variant_takes(name: Seq<char>, shape: VariantShape, v: SpecValue, read: bool) -> bool {
    match v {
        SpecValue::RawString(s) => shape is Unit && name == s,
        SpecValue::QuotedString(s) => shape is Unit && name == s,
        SpecValue::Array(a) => shape matches VariantShape::Tuple(n) && n == a.len() && read,
        SpecValue::Object(_) => shape is Named && read,
        _ => false,
    }
}

/// The first variant from index `i` on that takes `v`.
pub open spec fn first_variant(
    names: Seq<Seq<char>>,
    shapes: Seq<VariantShape>,
    v: SpecValue,
    reads: Seq<bool>,
    i: int,
) -> Option<int>
    decreases shapes.len() - i,
{
    if i < 0 || i >= shapes.len() {
        None
    } else if variant_takes(names[i], shapes[i], v, reads[i]) {
        Some(i)
    } else {
        first_variant(names, shapes, v, reads, i + 1)
    }
}

/// The names of `names`, by their characters.
pub open spec fn name_views(names: Seq<String>) -> Seq<Seq<char>> {
    names.map_values(|n: String| n@)
}

/// Choose the variant that a derived `Parse` reads `v` as, among variants
/// with the (renamed) names `names` and the shapes `shapes`, in their order:
/// a string gives the first unit variant of that name; an array the first
/// tuple variant of its length whose fields read out of it; an object the
/// first variant with named fields whose fields read out of it. `reads[i]`
/// tells whether the fields of variant `i` read out of `v` (the fields'
/// own `Parse` decides that).
///
/// # Errors
/// [CastError::IncompatibleType] when no variant takes `v`.
pub fn pick_variant(names: &Vec<String>, shapes: &Vec<VariantShape>, v: &Value, reads: &Vec<bool>) -> (r:
    Result<usize, CastError>)
    requires
        names.len() == shapes.len(),
        reads.len() == shapes.len(),
    ensures
        match first_variant(name_views(names@), shapes@, v@, reads@, 0) {
            Some(i) => r == Ok::<usize, CastError>(i as usize),
            None => r matches Err(CastError::IncompatibleType),
        },
{
    let mut i: usize = 0;
    while i < shapes.len()
        invariant
            names.len() == shapes.len(),
            reads.len() == shapes.len(),
            i <= shapes.len(),
            first_variant(name_views(names@), shapes@, v@, reads@, 0) == first_variant(
                name_views(names@),
                shapes@,
                v@,
                reads@,
                i as int,
            ),
        decreases shapes.len() - i,
    {
        let takes = match v {
            Value::RawString(s) => shapes[i] == VariantShape::Unit && same_text(names[i].as_str(), s.as_str()),
            Value::QuotedString(s) => shapes[i] == VariantShape::Unit && same_text(names[i].as_str(), s.as_str()),
            Value::Array(a) => match shapes[i] {
                VariantShape::Tuple(n) => n == a.len() && reads[i],
                _ => false,
            },
            Value::Object(_) => shapes[i] == VariantShape::Named && reads[i],
            _ => false,
        };
        proof {
            assert(name_views(names@)[i as int] == names@[i as int]@);
            if let Value::Array(a) = v {
                lemma_values_view(a@);
            }
        }
        if takes {
            return Ok(i);
        }
        i += 1;
    }
    Err(CastError::IncompatibleType)
}

} // verus!
