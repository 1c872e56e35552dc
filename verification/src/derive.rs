//! What the `Parse` and `Generate` derives decide for a type: the names its
//! fields and variants take, which fields are skipped, how a field left out
//! of the text is filled in, and which variant of an enum a value is read as. The attributes and types that the derives
//! read are held here as plain values.
pub mod attribute;
pub mod bare;
pub mod variants;
pub mod directives;
pub mod plan;
