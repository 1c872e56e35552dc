//! The attributes and field types that the derives read, held as plain
//! values.
use vstd::prelude::*;

verus! {

/// A literal written in an attribute.
#[derive(Debug, PartialEq)]
pub enum AttrLit {
    /// A string literal, by its value.
    Str(String),
    /// An integer literal: its digits as written, and its suffix (empty where
    /// it has none).
    Int(String, String),
    /// A float literal: its digits as written, and its suffix (empty where it
    /// has none).
    Float(String, String),
    /// `true` or `false`.
    Bool(bool),
    /// A character literal.
    Char(char),
    /// Any other literal (a byte, a byte string, a C string), by its text.
    Other(String),
}

/// The model of an [AttrLit]: its texts as character sequences.
pub enum SpecLit {
    Str(Seq<char>),
    Int(Seq<char>, Seq<char>),
    Float(Seq<char>, Seq<char>),
    Bool(bool),
    Char(char),
    Other(Seq<char>),
}

impl View for AttrLit {
    type V = SpecLit;

    open spec fn view(&self) -> SpecLit {
        match self {
            AttrLit::Str(s) => SpecLit::Str(s@),
            AttrLit::Int(d, x) => SpecLit::Int(d@, x@),
            AttrLit::Float(d, x) => SpecLit::Float(d@, x@),
            AttrLit::Bool(b) => SpecLit::Bool(*b),
            AttrLit::Char(c) => SpecLit::Char(*c),
            AttrLit::Other(t) => SpecLit::Other(t@),
        }
    }
}

impl Clone for AttrLit {
    fn clone(&self) -> (r: Self)
        ensures
            r == *self,
    {
        match self {
            AttrLit::Str(s) => AttrLit::Str(s.clone()),
            AttrLit::Int(d, x) => AttrLit::Int(d.clone(), x.clone()),
            AttrLit::Float(d, x) => AttrLit::Float(d.clone(), x.clone()),
            AttrLit::Bool(b) => AttrLit::Bool(*b),
            AttrLit::Char(c) => AttrLit::Char(*c),
            AttrLit::Other(t) => AttrLit::Other(t.clone()),
        }
    }
}

/// The expression after `=` in a directive.
#[derive(Debug, PartialEq)]
pub enum AttrValue {
    /// A literal.
    Lit(AttrLit),
    /// A minus sign before an expression: the literal, where that expression
    /// is one.
    Neg(Option<AttrLit>),
    /// Any other expression.
    Other,
}

impl Clone for AttrValue {
    fn clone(&self) -> (r: Self)
        ensures
            r == *self,
    {
        match self {
            AttrValue::Lit(l) => AttrValue::Lit(l.clone()),
            AttrValue::Neg(Some(l)) => AttrValue::Neg(Some(l.clone())),
            AttrValue::Neg(None) => AttrValue::Neg(None),
            AttrValue::Other => AttrValue::Other,
        }
    }
}

/// One directive in an attribute's list: `name`, `name = value` or
/// `name(...)`, its name being the text of its path.
#[derive(Debug, PartialEq)]
pub enum Meta {
    /// A bare path, such as `skip`.
    Path(String),
    /// `name = value`.
    NameValue(String, AttrValue),
    /// `name(...)`.
    List(String),
}

impl Clone for Meta {
    fn clone(&self) -> (r: Self)
        ensures
            r == *self,
    {
        match self {
            Meta::Path(p) => Meta::Path(p.clone()),
            Meta::NameValue(p, v) => Meta::NameValue(p.clone(), v.clone()),
            Meta::List(p) => Meta::List(p.clone()),
        }
    }
}

/// What follows the path of an attribute.
#[derive(Debug, PartialEq)]
pub enum AttrMeta {
    /// Nothing: `#[path]`.
    Path,
    /// `#[path = value]`.
    NameValue(AttrValue),
    /// `#[path(...)]`: its arguments read as directives separated by commas,
    /// or the message of the error met reading them.
    List(Result<Vec<Meta>, String>),
}

/// An attribute on a type, a field or a variant.
#[derive(Debug, PartialEq)]
pub struct Attribute {
    /// The text of the attribute's path.
    pub path: String,
    /// What follows the path.
    pub meta: AttrMeta,
}

/// One segment of a type's path.
#[derive(Debug, PartialEq)]
pub struct Segment {
    /// Its identifier.
    pub name: String,
    /// Whether it has generic arguments, as in `Option<T>`.
    pub has_arguments: bool,
}

/// The type of a field, as far as the derives look at it.
#[derive(Debug, PartialEq)]
pub enum FieldType {
    /// A path type.
    Path {
        /// Whether it has a qualified self, as in `<T as Trait>::Item`.
        qualified: bool,
        /// Whether the path starts with `::`.
        leading_colon: bool,
        /// The segments of the path.
        segments: Vec<Segment>,
    },
    /// A reference to a type.
    Reference {
        /// Whether it is `&mut`.
        mutable: bool,
        /// The type it refers to.
        elem: Box<FieldType>,
    },
    /// Any other type.
    Other,
}

/// A named field of a struct or of an enum variant.
#[derive(Debug, PartialEq)]
pub struct Field {
    /// Its identifier.
    pub ident: String,
    /// Its type.
    pub ty: FieldType,
    /// Its attributes, in order.
    pub attrs: Vec<Attribute>,
}

/// A generic parameter of a type.
#[derive(Debug, PartialEq)]
pub enum GenericParam {
    /// A type parameter: its name and its bounds, each by its text.
    Type {
        /// Its name.
        name: String,
        /// Its bounds, in order.
        bounds: Vec<String>,
    },
    /// A lifetime parameter, by its text.
    Lifetime(String),
    /// A const parameter, by its text.
    Const(String),
}

/// The generic parameters of a type.
#[derive(Debug, PartialEq)]
pub struct Generics {
    /// The parameters, in order.
    pub params: Vec<GenericParam>,
}

/// Whether the path made of `segments` (after a `::` where `leading_colon`)
/// is the bare identifier `name`.
pub open spec fn is_ident(leading_colon: bool, segments: Seq<Segment>, name: Seq<char>) -> bool {
    &&& !leading_colon
    &&& segments.len() == 1
    &&& !segments[0].has_arguments
    &&& segments[0].name@ == name
}

} // verus!
