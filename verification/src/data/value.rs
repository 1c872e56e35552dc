use vstd::prelude::*;

use crate::collections::{object_entries, ObjectMap};
use crate::error::{CastError, SpecCastError};
use crate::generable::Generable;
use crate::parseable::{outcome, Parseable};

verus! {

pub enum SpecValue {
    Void,
    QuotedString(Seq<char>),
    RawString(Seq<char>),
    Boolean(bool),
    FloatNumber(Seq<char>),
    UnsignedIntegerNumber(u32),
    SignedIntegerNumber(i32),
    Object(Seq<(Seq<char>, SpecValue)>),
    Array(Seq<SpecValue>),
}

#[derive(Debug, PartialEq)]
pub enum Value {
    Void,
    QuotedString(String),
    RawString(String),
    Boolean(bool),
    FloatNumber(String),
    UnsignedIntegerNumber(u32),
    SignedIntegerNumber(i32),
    Object(ObjectMap),
    Array(Vec<Value>),
}

pub open spec fn value_view(v: Value) -> SpecValue
    decreases v,
{
    match v {
        Value::Void => SpecValue::Void,
        Value::QuotedString(s) => SpecValue::QuotedString(s@),
        Value::RawString(s) => SpecValue::RawString(s@),
        Value::Boolean(b) => SpecValue::Boolean(b),
        Value::FloatNumber(s) => SpecValue::FloatNumber(s@),
        Value::UnsignedIntegerNumber(n) => SpecValue::UnsignedIntegerNumber(n),
        Value::SignedIntegerNumber(n) => SpecValue::SignedIntegerNumber(n),
        Value::Object(m) => SpecValue::Object(object_entries(m)),
        Value::Array(a) => SpecValue::Array(values_view(a@)),
    }
}

pub open spec fn values_view(s: Seq<Value>) -> Seq<SpecValue>
    decreases s,
{
    if s.len() == 0 {
        Seq::empty()
    } else {
        values_view(s.subrange(0, s.len() - 1)).push(value_view(s[s.len() - 1]))
    }
}

pub proof fn lemma_values_view(s: Seq<Value>)
    ensures
        values_view(s).len() == s.len(),
        forall|i: int| 0 <= i < s.len() ==> #[trigger] values_view(s)[i] == value_view(s[i]),
    decreases s.len(),
{
    if s.len() > 0 {
        lemma_values_view(s.subrange(0, s.len() - 1));
    }
}

impl Value {
    /// check if value is object.
    pub fn is_object(&self) -> (r: bool)
        ensures
            r == (self is Object),
    {
        matches!(self, Self::Object(_))
    }

    /// get content ref of object.
    pub fn as_object_ref(&self) -> (r: Option<&ObjectMap>)
        ensures
            r is Some <==> self is Object,
            r matches Some(x) ==> *x == self->Object_0,
    {
        match self {
            Self::Object(obj) => Some(obj),
            _ => None,
        }
    }

    /// get mutable content ref of object.
    pub fn as_object_mut(&mut self) -> (r: Option<&mut ObjectMap>)
        ensures
            r is Some <==> *old(self) is Object,
            r matches Some(x) ==> *x == (*old(self))->Object_0 && *final(self) == Value::Object(*final(x)),
            r is None ==> *final(self) == *old(self),
    {
        match self {
            Self::Object(obj) => Some(obj),
            _ => None,
        }
    }

    /// get content of object.
    pub fn as_object(self) -> (r: Option<ObjectMap>)
        ensures
            r is Some <==> self is Object,
            r matches Some(x) ==> x == self->Object_0,
    {
        match self {
            Self::Object(obj) => Some(obj),
            _ => None,
        }
    }

    /// check if value is array.
    pub fn is_array(&self) -> (r: bool)
        ensures
            r == (self is Array),
    {
        matches!(self, Self::Array(_))
    }

    /// get content ref of array.
    pub fn as_array_ref(&self) -> (r: Option<&Vec<Value>>)
        ensures
            r is Some <==> self is Array,
            r matches Some(x) ==> *x == self->Array_0,
    {
        match self {
            Self::Array(obj) => Some(obj),
            _ => None,
        }
    }

    /// get mutable content ref of array.
    pub fn as_array_mut(&mut self) -> (r: Option<&mut Vec<Value>>)
        ensures
            r is Some <==> *old(self) is Array,
            r matches Some(x) ==> *x == (*old(self))->Array_0 && *final(self) == Value::Array(*final(x)),
            r is None ==> *final(self) == *old(self),
    {
        match self {
            Self::Array(obj) => Some(obj),
            _ => None,
        }
    }

    /// get content of array.
    pub fn as_array(self) -> (r: Option<Vec<Value>>)
        ensures
            r is Some <==> self is Array,
            r matches Some(x) ==> x == self->Array_0,
    {
        match self {
            Self::Array(obj) => Some(obj),
            _ => None,
        }
    }

    /// check if value is boolean.
    pub fn is_boolean(&self) -> (r: bool)
        ensures
            r == (self is Boolean),
    {
        matches!(self, Self::Boolean(_))
    }

    /// get content ref of boolean.
    pub fn as_boolean_ref(&self) -> (r: Option<&bool>)
        ensures
            r is Some <==> self is Boolean,
            r matches Some(x) ==> *x == self->Boolean_0,
    {
        match self {
            Self::Boolean(obj) => Some(obj),
            _ => None,
        }
    }

    /// get mutable content ref of boolean.
    pub fn as_boolean_mut(&mut self) -> (r: Option<&mut bool>)
        ensures
            r is Some <==> *old(self) is Boolean,
            r matches Some(x) ==> *x == (*old(self))->Boolean_0 && *final(self) == Value::Boolean(*final(x)),
            r is None ==> *final(self) == *old(self),
    {
        match self {
            Self::Boolean(obj) => Some(obj),
            _ => None,
        }
    }

    /// get content of boolean.
    pub fn as_boolean(self) -> (r: Option<bool>)
        ensures
            r is Some <==> self is Boolean,
            r matches Some(x) ==> x == self->Boolean_0,
    {
        match self {
            Self::Boolean(obj) => Some(obj),
            _ => None,
        }
    }

    /// check if value is unsigned number.
    pub fn is_unsigned_number(&self) -> (r: bool)
        ensures
            r == (self is UnsignedIntegerNumber),
    {
        matches!(self, Self::UnsignedIntegerNumber(_))
    }

    /// get content ref of unsigned number.
    pub fn as_unsigned_number_ref(&self) -> (r: Option<&u32>)
        ensures
            r is Some <==> self is UnsignedIntegerNumber,
            r matches Some(x) ==> *x == self->UnsignedIntegerNumber_0,
    {
        match self {
            Self::UnsignedIntegerNumber(obj) => Some(obj),
            _ => None,
        }
    }

    /// get mutable content ref of unsigned number.
    pub fn as_unsigned_number_mut(&mut self) -> (r: Option<&mut u32>)
        ensures
            r is Some <==> *old(self) is UnsignedIntegerNumber,
            r matches Some(x) ==> *x == (*old(self))->UnsignedIntegerNumber_0 && *final(self) == Value::UnsignedIntegerNumber(*final(x)),
            r is None ==> *final(self) == *old(self),
    {
        match self {
            Self::UnsignedIntegerNumber(obj) => Some(obj),
            _ => None,
        }
    }

    /// get content of unsigned number.
    pub fn as_unsigned_number(self) -> (r: Option<u32>)
        ensures
            r is Some <==> self is UnsignedIntegerNumber,
            r matches Some(x) ==> x == self->UnsignedIntegerNumber_0,
    {
        match self {
            Self::UnsignedIntegerNumber(obj) => Some(obj),
            _ => None,
        }
    }

    /// check if value is signed number.
    pub fn is_signed_number(&self) -> (r: bool)
        ensures
            r == (self is SignedIntegerNumber),
    {
        matches!(self, Self::SignedIntegerNumber(_))
    }

    /// get content ref of signed number.
    pub fn as_signed_number_ref(&self) -> (r: Option<&i32>)
        ensures
            r is Some <==> self is SignedIntegerNumber,
            r matches Some(x) ==> *x == self->SignedIntegerNumber_0,
    {
        match self {
            Self::SignedIntegerNumber(obj) => Some(obj),
            _ => None,
        }
    }

    /// get mutable content ref of signed number.
    pub fn as_signed_number_mut(&mut self) -> (r: Option<&mut i32>)
        ensures
            r is Some <==> *old(self) is SignedIntegerNumber,
            r matches Some(x) ==> *x == (*old(self))->SignedIntegerNumber_0 && *final(self) == Value::SignedIntegerNumber(*final(x)),
            r is None ==> *final(self) == *old(self),
    {
        match self {
            Self::SignedIntegerNumber(obj) => Some(obj),
            _ => None,
        }
    }

    /// get content of signed number.
    pub fn as_signed_number(self) -> (r: Option<i32>)
        ensures
            r is Some <==> self is SignedIntegerNumber,
            r matches Some(x) ==> x == self->SignedIntegerNumber_0,
    {
        match self {
            Self::SignedIntegerNumber(obj) => Some(obj),
            _ => None,
        }
    }

    /// check if value is float number.
    pub fn is_float_number(&self) -> (r: bool)
        ensures
            r == (self is FloatNumber),
    {
        matches!(self, Self::FloatNumber(_))
    }

    /// get content ref of float number.
    pub fn as_float_number_ref(&self) -> (r: Option<&String>)
        ensures
            r is Some <==> self is FloatNumber,
            r matches Some(x) ==> *x == self->FloatNumber_0,
    {
        match self {
            Self::FloatNumber(obj) => Some(obj),
            _ => None,
        }
    }

    /// get mutable content ref of float number.
    pub fn as_float_number_mut(&mut self) -> (r: Option<&mut String>)
        ensures
            r is Some <==> *old(self) is FloatNumber,
            r matches Some(x) ==> *x == (*old(self))->FloatNumber_0 && *final(self) == Value::FloatNumber(*final(x)),
            r is None ==> *final(self) == *old(self),
    {
        match self {
            Self::FloatNumber(obj) => Some(obj),
            _ => None,
        }
    }

    /// get content of float number.
    pub fn as_float_number(self) -> (r: Option<String>)
        ensures
            r is Some <==> self is FloatNumber,
            r matches Some(x) ==> x == self->FloatNumber_0,
    {
        match self {
            Self::FloatNumber(obj) => Some(obj),
            _ => None,
        }
    }

    /// check if value is void.
    pub fn is_void(&self) -> (r: bool)
        ensures
            r == (self is Void),
    {
        matches!(self, Self::Void)
    }

    /// check if value is quoted string.
    pub fn is_quoted_string(&self) -> (r: bool)
        ensures
            r == (self is QuotedString),
    {
        matches!(self, Self::QuotedString(..))
    }

    /// check if value is raw string.
    pub fn is_raw_string(&self) -> (r: bool)
        ensures
            r == (self is RawString),
    {
        matches!(self, Self::RawString(..))
    }

    /// get content ref of string.
    pub fn as_string_ref(&self) -> (r: Option<&String>)
        ensures
            r is Some <==> (self is QuotedString || self is RawString),
            r matches Some(x) ==> (self matches Value::QuotedString(s) && *x == s) || (
            self matches Value::RawString(s) && *x == s),
    {
        match self {
            Self::QuotedString(s) | Self::RawString(s) => Some(s),
            _ => None,
        }
    }

    /// get mutable content ref of string.
    pub fn as_string_mut(&mut self) -> (r: Option<&mut String>)
        ensures
            r is Some <==> (*old(self) is QuotedString || *old(self) is RawString),
            r matches Some(x) ==> (*old(self) matches Value::QuotedString(s) && *x == s
                && *final(self) == Value::QuotedString(*final(x))) || (*old(self) matches Value::RawString(
                s,
            ) && *x == s && *final(self) == Value::RawString(*final(x))),
            r is None ==> *final(self) == *old(self),
    {
        match self {
            Self::QuotedString(s) => Some(s),
            Self::RawString(s) => Some(s),
            _ => None,
        }
    }

    /// get content of string.
    pub fn as_string(self) -> (r: Option<String>)
        ensures
            r is Some <==> (self is QuotedString || self is RawString),
            r matches Some(x) ==> (self matches Value::QuotedString(s) && x == s) || (
            self matches Value::RawString(s) && x == s),
    {
        match self {
            Self::QuotedString(s) | Self::RawString(s) => Some(s),
            _ => None,
        }
    }
}

impl View for Value {
    type V = SpecValue;

    open spec fn view(&self) -> SpecValue {
        value_view(*self)
    }
}

impl Clone for Value {
    fn clone(&self) -> (r: Self)
        ensures r@ == self@,
        decreases self,
    {
        match self {
            Value::Void => Value::Void,
            Value::QuotedString(s) => Value::QuotedString(s.clone()),
            Value::RawString(s) => Value::RawString(s.clone()),
            Value::Boolean(b) => Value::Boolean(*b),
            Value::FloatNumber(s) => Value::FloatNumber(s.clone()),
            Value::UnsignedIntegerNumber(n) => Value::UnsignedIntegerNumber(*n),
            Value::SignedIntegerNumber(n) => Value::SignedIntegerNumber(*n),
            Value::Object(m) => Value::Object(m.clone()),
            Value::Array(a) => {
                let mut out: Vec<Value> = Vec::new();
                let mut i: usize = 0;
                while i < a.len()
                    invariant
                        self is Array,
                        *a == self->Array_0,
                        i <= a.len(),
                        out.len() == i,
                        forall|j: int| 0 <= j < i ==> out@[j]@ == a@[j]@,
                    decreases a.len() - i,
                {
                    proof {
                        assert(decreases_to!(*self => self->Array_0));
                        assert(decreases_to!(self->Array_0 => a@));
                        assert(decreases_to!(a@ => a@[i as int]));
                    }
                    out.push(a[i].clone());
                    i += 1;
                }
                let r = Value::Array(out);
                proof {
                    lemma_values_view(out@);
                    lemma_values_view(a@);
                    assert(values_view(out@) =~= values_view(a@));
                }
                r
            },
        }
    }
}

/// Viewing a sequence with one more value appends that value's view.
pub proof fn lemma_values_view_push(s: Seq<Value>, v: Value)
    ensures
        values_view(s.push(v)) == values_view(s).push(value_view(v)),
{
    assert(s.push(v).subrange(0, s.len() as int) =~= s);
}

impl Parseable for u8 {
    open spec fn parsed_from(v: SpecValue, r: Result<u8, SpecCastError>) -> bool {
        r == match v {
            SpecValue::UnsignedIntegerNumber(n) => Ok(n as u8),
            _ => Err(SpecCastError::IncompatibleType),
        }
    }

    fn parse(v: Value) -> (r: Result<u8, CastError>) {
        match v {
            Value::UnsignedIntegerNumber(n) => Ok(n as u8),
            _ => Err(CastError::IncompatibleType),
        }
    }
}

impl Parseable for u16 {
    open spec fn parsed_from(v: SpecValue, r: Result<u16, SpecCastError>) -> bool {
        r == match v {
            SpecValue::UnsignedIntegerNumber(n) => Ok(n as u16),
            _ => Err(SpecCastError::IncompatibleType),
        }
    }

    fn parse(v: Value) -> (r: Result<u16, CastError>) {
        match v {
            Value::UnsignedIntegerNumber(n) => Ok(n as u16),
            _ => Err(CastError::IncompatibleType),
        }
    }
}

impl Parseable for u32 {
    open spec fn parsed_from(v: SpecValue, r: Result<u32, SpecCastError>) -> bool {
        r == match v {
            SpecValue::UnsignedIntegerNumber(n) => Ok(n as u32),
            _ => Err(SpecCastError::IncompatibleType),
        }
    }

    fn parse(v: Value) -> (r: Result<u32, CastError>) {
        match v {
            Value::UnsignedIntegerNumber(n) => Ok(n as u32),
            _ => Err(CastError::IncompatibleType),
        }
    }
}

impl Parseable for u64 {
    open spec fn parsed_from(v: SpecValue, r: Result<u64, SpecCastError>) -> bool {
        r == match v {
            SpecValue::UnsignedIntegerNumber(n) => Ok(n as u64),
            _ => Err(SpecCastError::IncompatibleType),
        }
    }

    fn parse(v: Value) -> (r: Result<u64, CastError>) {
        match v {
            Value::UnsignedIntegerNumber(n) => Ok(n as u64),
            _ => Err(CastError::IncompatibleType),
        }
    }
}

impl Parseable for usize {
    open spec fn parsed_from(v: SpecValue, r: Result<usize, SpecCastError>) -> bool {
        r == match v {
            SpecValue::UnsignedIntegerNumber(n) => Ok(n as usize),
            _ => Err(SpecCastError::IncompatibleType),
        }
    }

    fn parse(v: Value) -> (r: Result<usize, CastError>) {
        match v {
            Value::UnsignedIntegerNumber(n) => Ok(n as usize),
            _ => Err(CastError::IncompatibleType),
        }
    }
}

impl Parseable for u128 {
    open spec fn parsed_from(v: SpecValue, r: Result<u128, SpecCastError>) -> bool {
        r == match v {
            SpecValue::UnsignedIntegerNumber(n) => Ok(n as u128),
            _ => Err(SpecCastError::IncompatibleType),
        }
    }

    fn parse(v: Value) -> (r: Result<u128, CastError>) {
        match v {
            Value::UnsignedIntegerNumber(n) => Ok(n as u128),
            _ => Err(CastError::IncompatibleType),
        }
    }
}

impl Parseable for i8 {
    open spec fn parsed_from(v: SpecValue, r: Result<i8, SpecCastError>) -> bool {
        r == match v {
            SpecValue::SignedIntegerNumber(n) => Ok(n as i8),
            _ => Err(SpecCastError::IncompatibleType),
        }
    }

    fn parse(v: Value) -> (r: Result<i8, CastError>) {
        match v {
            Value::SignedIntegerNumber(n) => Ok(n as i8),
            _ => Err(CastError::IncompatibleType),
        }
    }
}

impl Parseable for i16 {
    open spec fn parsed_from(v: SpecValue, r: Result<i16, SpecCastError>) -> bool {
        r == match v {
            SpecValue::SignedIntegerNumber(n) => Ok(n as i16),
            _ => Err(SpecCastError::IncompatibleType),
        }
    }

    fn parse(v: Value) -> (r: Result<i16, CastError>) {
        match v {
            Value::SignedIntegerNumber(n) => Ok(n as i16),
            _ => Err(CastError::IncompatibleType),
        }
    }
}

impl Parseable for i32 {
    open spec fn parsed_from(v: SpecValue, r: Result<i32, SpecCastError>) -> bool {
        r == match v {
            SpecValue::SignedIntegerNumber(n) => Ok(n as i32),
            _ => Err(SpecCastError::IncompatibleType),
        }
    }

    fn parse(v: Value) -> (r: Result<i32, CastError>) {
        match v {
            Value::SignedIntegerNumber(n) => Ok(n as i32),
            _ => Err(CastError::IncompatibleType),
        }
    }
}

impl Parseable for i64 {
    open spec fn parsed_from(v: SpecValue, r: Result<i64, SpecCastError>) -> bool {
        r == match v {
            SpecValue::SignedIntegerNumber(n) => Ok(n as i64),
            _ => Err(SpecCastError::IncompatibleType),
        }
    }

    fn parse(v: Value) -> (r: Result<i64, CastError>) {
        match v {
            Value::SignedIntegerNumber(n) => Ok(n as i64),
            _ => Err(CastError::IncompatibleType),
        }
    }
}

impl Parseable for i128 {
    open spec fn parsed_from(v: SpecValue, r: Result<i128, SpecCastError>) -> bool {
        r == match v {
            SpecValue::SignedIntegerNumber(n) => Ok(n as i128),
            _ => Err(SpecCastError::IncompatibleType),
        }
    }

    fn parse(v: Value) -> (r: Result<i128, CastError>) {
        match v {
            Value::SignedIntegerNumber(n) => Ok(n as i128),
            _ => Err(CastError::IncompatibleType),
        }
    }
}

impl Generable for u8 {
    open spec fn obeys_generated_spec() -> bool {
        true
    }

    open spec fn generated(&self) -> SpecValue {
        SpecValue::UnsignedIntegerNumber(*self as u32)
    }

    fn generate(self) -> (v: Value) {
        Value::UnsignedIntegerNumber(self as u32)
    }

    fn generate_ref(&self) -> (v: Value) {
        Value::UnsignedIntegerNumber(*self as u32)
    }
}

impl Generable for u16 {
    open spec fn obeys_generated_spec() -> bool {
        true
    }

    open spec fn generated(&self) -> SpecValue {
        SpecValue::UnsignedIntegerNumber(*self as u32)
    }

    fn generate(self) -> (v: Value) {
        Value::UnsignedIntegerNumber(self as u32)
    }

    fn generate_ref(&self) -> (v: Value) {
        Value::UnsignedIntegerNumber(*self as u32)
    }
}

impl Generable for u32 {
    open spec fn obeys_generated_spec() -> bool {
        true
    }

    open spec fn generated(&self) -> SpecValue {
        SpecValue::UnsignedIntegerNumber(*self as u32)
    }

    fn generate(self) -> (v: Value) {
        Value::UnsignedIntegerNumber(self as u32)
    }

    fn generate_ref(&self) -> (v: Value) {
        Value::UnsignedIntegerNumber(*self as u32)
    }
}

impl Generable for u64 {
    open spec fn obeys_generated_spec() -> bool {
        true
    }

    open spec fn generated(&self) -> SpecValue {
        SpecValue::UnsignedIntegerNumber(*self as u32)
    }

    fn generate(self) -> (v: Value) {
        Value::UnsignedIntegerNumber(self as u32)
    }

    fn generate_ref(&self) -> (v: Value) {
        Value::UnsignedIntegerNumber(*self as u32)
    }
}

impl Generable for u128 {
    open spec fn obeys_generated_spec() -> bool {
        true
    }

    open spec fn generated(&self) -> SpecValue {
        SpecValue::UnsignedIntegerNumber(*self as u32)
    }

    fn generate(self) -> (v: Value) {
        Value::UnsignedIntegerNumber(self as u32)
    }

    fn generate_ref(&self) -> (v: Value) {
        Value::UnsignedIntegerNumber(*self as u32)
    }
}

impl Generable for i8 {
    open spec fn obeys_generated_spec() -> bool {
        true
    }

    open spec fn generated(&self) -> SpecValue {
        SpecValue::SignedIntegerNumber(*self as i32)
    }

    fn generate(self) -> (v: Value) {
        Value::SignedIntegerNumber(self as i32)
    }

    fn generate_ref(&self) -> (v: Value) {
        Value::SignedIntegerNumber(*self as i32)
    }
}

impl Generable for i16 {
    open spec fn obeys_generated_spec() -> bool {
        true
    }

    open spec fn generated(&self) -> SpecValue {
        SpecValue::SignedIntegerNumber(*self as i32)
    }

    fn generate(self) -> (v: Value) {
        Value::SignedIntegerNumber(self as i32)
    }

    fn generate_ref(&self) -> (v: Value) {
        Value::SignedIntegerNumber(*self as i32)
    }
}

impl Generable for i32 {
    open spec fn obeys_generated_spec() -> bool {
        true
    }

    open spec fn generated(&self) -> SpecValue {
        SpecValue::SignedIntegerNumber(*self as i32)
    }

    fn generate(self) -> (v: Value) {
        Value::SignedIntegerNumber(self as i32)
    }

    fn generate_ref(&self) -> (v: Value) {
        Value::SignedIntegerNumber(*self as i32)
    }
}

impl Generable for i64 {
    open spec fn obeys_generated_spec() -> bool {
        true
    }

    open spec fn generated(&self) -> SpecValue {
        SpecValue::SignedIntegerNumber(*self as i32)
    }

    fn generate(self) -> (v: Value) {
        Value::SignedIntegerNumber(self as i32)
    }

    fn generate_ref(&self) -> (v: Value) {
        Value::SignedIntegerNumber(*self as i32)
    }
}

impl Generable for i128 {
    open spec fn obeys_generated_spec() -> bool {
        true
    }

    open spec fn generated(&self) -> SpecValue {
        SpecValue::SignedIntegerNumber(*self as i32)
    }

    fn generate(self) -> (v: Value) {
        Value::SignedIntegerNumber(self as i32)
    }

    fn generate_ref(&self) -> (v: Value) {
        Value::SignedIntegerNumber(*self as i32)
    }
}

impl Parseable for bool {
    open spec fn parsed_from(v: SpecValue, r: Result<bool, SpecCastError>) -> bool {
        r == match v {
            SpecValue::Boolean(b) => Ok(b),
            _ => Err(SpecCastError::IncompatibleType),
        }
    }

    fn parse(v: Value) -> (r: Result<bool, CastError>) {
        match v {
            Value::Boolean(b) => Ok(b),
            _ => Err(CastError::IncompatibleType),
        }
    }
}

impl Parseable for String {
    open spec fn parsed_from(v: SpecValue, r: Result<String, SpecCastError>) -> bool {
        match v {
            SpecValue::RawString(s) => r is Ok && r->Ok_0@ == s,
            SpecValue::QuotedString(s) => r is Ok && r->Ok_0@ == s,
            _ => r == Err::<String, SpecCastError>(SpecCastError::IncompatibleType),
        }
    }

    fn parse(v: Value) -> (r: Result<String, CastError>) {
        match v {
            Value::RawString(s) | Value::QuotedString(s) => Ok(s),
            _ => Err(CastError::IncompatibleType),
        }
    }
}

/// A [Value] parses into itself.
impl Parseable for Value {
    open spec fn parsed_from(v: SpecValue, r: Result<Value, SpecCastError>) -> bool {
        r is Ok && r->Ok_0@ == v
    }

    fn parse(v: Value) -> (r: Result<Value, CastError>) {
        Ok(v)
    }
}

impl<T: Parseable> Parseable for Box<T> {
    open spec fn parsed_from(v: SpecValue, r: Result<Box<T>, SpecCastError>) -> bool {
        match r {
            Ok(b) => T::parsed_from(v, Ok(*b)),
            Err(e) => T::parsed_from(v, Err(e)),
        }
    }

    fn parse(v: Value) -> (r: Result<Box<T>, CastError>) {
        match T::parse(v) {
            Ok(x) => Ok(Box::new(x)),
            Err(e) => Err(e),
        }
    }
}

impl Parseable for Box<str> {
    open spec fn parsed_from(v: SpecValue, r: Result<Box<str>, SpecCastError>) -> bool {
        match v {
            SpecValue::RawString(s) => r is Ok && (*r->Ok_0)@ == s,
            SpecValue::QuotedString(s) => r is Ok && (*r->Ok_0)@ == s,
            _ => r == Err::<Box<str>, SpecCastError>(SpecCastError::IncompatibleType),
        }
    }

    fn parse(v: Value) -> (r: Result<Box<str>, CastError>) {
        match v {
            Value::RawString(s) | Value::QuotedString(s) => Ok(boxed_str(s)),
            _ => Err(CastError::IncompatibleType),
        }
    }
}

/// `r` is an outcome of parsing each of the values `a` in turn: all of the
/// parsed values, in their order, or the error of the first value that did
/// not parse.
pub open spec fn elements_parsed<T: Parseable>(a: Seq<SpecValue>, r: Result<Seq<T>, SpecCastError>) -> bool {
    match r {
        Ok(x) => x.len() == a.len() && forall|i: int|
            0 <= i < a.len() ==> #[trigger] T::parsed_from(a[i], Ok(x[i])),
        Err(e) => exists|j: int|
            0 <= j < a.len() && #[trigger] T::parsed_from(a[j], Err(e)) && forall|i: int|
                0 <= i < j ==> #[trigger] parses::<T>(a[i]),
    }
}

/// Some value of `T` is an outcome of parsing `v`.
pub open spec fn parses<T: Parseable>(v: SpecValue) -> bool {
    exists|x: T| #[trigger] T::parsed_from(v, Ok(x))
}

/// Parse each value of `arr` in turn, stopping at the first error.
fn parse_elements<T: Parseable>(arr: Vec<Value>) -> (r: Result<Vec<T>, CastError>)
    ensures
        elements_parsed::<T>(
            values_view(arr@),
            match r {
                Ok(x) => Ok(x@),
                Err(e) => Err(e@),
            },
        ),
{
    let ghost a = values_view(arr@);
    proof {
        lemma_values_view(arr@);
    }
    let mut res: Vec<T> = Vec::new();
    for i in it: arr.into_iter()
        invariant
            it.seq() == arr@,
            a == values_view(arr@),
            a.len() == arr@.len(),
            forall|k: int| 0 <= k < arr@.len() ==> #[trigger] a[k] == arr@[k]@,
            res@.len() == it.index(),
            forall|k: int| 0 <= k < res@.len() ==> #[trigger] T::parsed_from(a[k], Ok(res@[k])),
    {
        let ghost j = res@.len() as int;
        proof {
            assert(i@ == a[j]);
        }
        match T::parse(i) {
            Ok(x) => {
                res.push(x);
            },
            Err(e) => {
                proof {
                    assert forall|k: int| 0 <= k < j implies #[trigger] parses::<T>(a[k]) by {
                        assert(T::parsed_from(a[k], Ok(res@[k])));
                    }
                    assert(T::parsed_from(a[j], Err(e@)));
                }
                return Err(e);
            },
        }
    }
    Ok(res)
}

impl<T: Parseable> Parseable for Vec<T> {
    /// An array parses element by element. Any other value but `void` is
    /// taken as a one-element array, so that a key defined once reads as a
    /// vector of one value.
    open spec fn parsed_from(v: SpecValue, r: Result<Vec<T>, SpecCastError>) -> bool {
        match v {
            SpecValue::Array(a) => elements_parsed::<T>(
                a,
                match r {
                    Ok(x) => Ok(x@),
                    Err(e) => Err(e),
                },
            ),
            SpecValue::Void => r == Err::<Vec<T>, SpecCastError>(SpecCastError::IncompatibleType),
            _ => match r {
                Ok(x) => x@.len() == 1 && T::parsed_from(v, Ok(x@[0])),
                Err(e) => T::parsed_from(v, Err(e)),
            },
        }
    }

    fn parse(v: Value) -> (r: Result<Vec<T>, CastError>) {
        match v {
            Value::Array(arr) => parse_elements(arr),
            Value::Void => Err(CastError::IncompatibleType),
            other => match T::parse(other) {
                Ok(x) => {
                    let mut res: Vec<T> = Vec::new();
                    res.push(x);
                    Ok(res)
                },
                Err(e) => Err(e),
            },
        }
    }
}

impl<T: Parseable> Parseable for Option<T> {
    /// `void` parses as `None`; any other value parses as `Some` of what it
    /// parses into.
    open spec fn parsed_from(v: SpecValue, r: Result<Option<T>, SpecCastError>) -> bool {
        if v is Void {
            r == Ok::<Option<T>, SpecCastError>(None)
        } else {
            match r {
                Ok(Some(x)) => T::parsed_from(v, Ok(x)),
                Ok(None) => false,
                Err(e) => T::parsed_from(v, Err(e)),
            }
        }
    }

    fn parse(v: Value) -> (r: Result<Option<T>, CastError>) {
        match v {
            Value::Void => Ok(None),
            other => match T::parse(other) {
                Ok(x) => Ok(Some(x)),
                Err(e) => Err(e),
            },
        }
    }
}

impl<T: Parseable> Parseable for Box<[T]> {
    open spec fn parsed_from(v: SpecValue, r: Result<Box<[T]>, SpecCastError>) -> bool {
        match v {
            SpecValue::Array(a) => elements_parsed::<T>(
                a,
                match r {
                    Ok(x) => Ok(x@),
                    Err(e) => Err(e),
                },
            ),
            _ => r == Err::<Box<[T]>, SpecCastError>(SpecCastError::IncompatibleType),
        }
    }

    fn parse(v: Value) -> (r: Result<Box<[T]>, CastError>) {
        match v {
            Value::Array(arr) => match parse_elements(arr) {
                Ok(x) => Ok(boxed_slice(x)),
                Err(e) => Err(e),
            },
            _ => Err(CastError::IncompatibleType),
        }
    }
}

impl Parseable for () {
    open spec fn parsed_from(v: SpecValue, r: Result<(), SpecCastError>) -> bool {
        r == match v {
            SpecValue::Void => Ok(()),
            SpecValue::Array(a) => if a.len() == 0 {
                Ok(())
            } else {
                Err(SpecCastError::IncompatibleType)
            },
            _ => Err(SpecCastError::IncompatibleType),
        }
    }

    fn parse(v: Value) -> (r: Result<(), CastError>) {
        match v {
            Value::Void => Ok(()),
            Value::Array(arr) => {
                proof {
                    lemma_values_view(arr@);
                }
                if arr.len() == 0 {
                    Ok(())
                } else {
                    Err(CastError::IncompatibleType)
                }
            },
            _ => Err(CastError::IncompatibleType),
        }
    }
}

/// Moves the items of `v` into an array of `N` items, when it holds `N`.
///
/// Calls `TryFrom<Vec<T>>` for `[T; N]`, which succeeds exactly when the
/// lengths agree and keeps the items in their order.
#[verifier::external_body]
fn vec_to_array<T, const N: usize>(v: Vec<T>) -> (r: Option<[T; N]>)
    ensures
        r is Some <==> v@.len() == N,
        r matches Some(a) ==> a@ == v@,
{
    match <[T; N]>::try_from(v) {
        Ok(a) => Some(a),
        Err(_) => None,
    }
}

/// `r` is an outcome of parsing `v` into an array of `N` items: an array of
/// `N` values parses element by element; anything else is refused.
pub open spec fn fixed_parsed<T: Parseable, const N: usize>(v: SpecValue, r: Result<[T; N], SpecCastError>) -> bool {
    match v {
        SpecValue::Array(a) => if a.len() != N {
            r == Err::<[T; N], SpecCastError>(SpecCastError::IncompatibleType)
        } else {
            elements_parsed::<T>(
                a,
                match r {
                    Ok(x) => Ok(x@),
                    Err(e) => Err(e),
                },
            )
        },
        _ => r == Err::<[T; N], SpecCastError>(SpecCastError::IncompatibleType),
    }
}

/// Parse `v` into an array of `N` items.
fn parse_fixed<T: Parseable, const N: usize>(v: Value) -> (r: Result<[T; N], CastError>)
    ensures
        fixed_parsed::<T, N>(v@, outcome(r)),
{
    match v {
        Value::Array(arr) => {
            proof {
                lemma_values_view(arr@);
            }
            if arr.len() != N {
                return Err(CastError::IncompatibleType);
            }
            match parse_elements::<T>(arr) {
                Ok(res) => match vec_to_array::<T, N>(res) {
                    Some(a) => Ok(a),
                    None => Err(CastError::IncompatibleType),
                },
                Err(e) => Err(e),
            }
        },
        _ => Err(CastError::IncompatibleType),
    }
}

impl<T: Parseable> Parseable for [T; 1] {
    open spec fn parsed_from(v: SpecValue, r: Result<[T; 1], SpecCastError>) -> bool {
        fixed_parsed::<T, 1>(v, r)
    }

    fn parse(v: Value) -> (r: Result<[T; 1], CastError>) {
        parse_fixed::<T, 1>(v)
    }
}

impl<T: Parseable> Parseable for [T; 2] {
    open spec fn parsed_from(v: SpecValue, r: Result<[T; 2], SpecCastError>) -> bool {
        fixed_parsed::<T, 2>(v, r)
    }

    fn parse(v: Value) -> (r: Result<[T; 2], CastError>) {
        parse_fixed::<T, 2>(v)
    }
}

impl<T: Parseable> Parseable for [T; 3] {
    open spec fn parsed_from(v: SpecValue, r: Result<[T; 3], SpecCastError>) -> bool {
        fixed_parsed::<T, 3>(v, r)
    }

    fn parse(v: Value) -> (r: Result<[T; 3], CastError>) {
        parse_fixed::<T, 3>(v)
    }
}

impl<T: Parseable> Parseable for [T; 4] {
    open spec fn parsed_from(v: SpecValue, r: Result<[T; 4], SpecCastError>) -> bool {
        fixed_parsed::<T, 4>(v, r)
    }

    fn parse(v: Value) -> (r: Result<[T; 4], CastError>) {
        parse_fixed::<T, 4>(v)
    }
}

impl<T: Parseable> Parseable for [T; 5] {
    open spec fn parsed_from(v: SpecValue, r: Result<[T; 5], SpecCastError>) -> bool {
        fixed_parsed::<T, 5>(v, r)
    }

    fn parse(v: Value) -> (r: Result<[T; 5], CastError>) {
        parse_fixed::<T, 5>(v)
    }
}

impl<T: Parseable> Parseable for [T; 6] {
    open spec fn parsed_from(v: SpecValue, r: Result<[T; 6], SpecCastError>) -> bool {
        fixed_parsed::<T, 6>(v, r)
    }

    fn parse(v: Value) -> (r: Result<[T; 6], CastError>) {
        parse_fixed::<T, 6>(v)
    }
}

impl<T: Parseable> Parseable for [T; 7] {
    open spec fn parsed_from(v: SpecValue, r: Result<[T; 7], SpecCastError>) -> bool {
        fixed_parsed::<T, 7>(v, r)
    }

    fn parse(v: Value) -> (r: Result<[T; 7], CastError>) {
        parse_fixed::<T, 7>(v)
    }
}

impl<T: Parseable> Parseable for [T; 8] {
    open spec fn parsed_from(v: SpecValue, r: Result<[T; 8], SpecCastError>) -> bool {
        fixed_parsed::<T, 8>(v, r)
    }

    fn parse(v: Value) -> (r: Result<[T; 8], CastError>) {
        parse_fixed::<T, 8>(v)
    }
}

impl<T: Parseable> Parseable for [T; 9] {
    open spec fn parsed_from(v: SpecValue, r: Result<[T; 9], SpecCastError>) -> bool {
        fixed_parsed::<T, 9>(v, r)
    }

    fn parse(v: Value) -> (r: Result<[T; 9], CastError>) {
        parse_fixed::<T, 9>(v)
    }
}

impl<T: Parseable> Parseable for [T; 10] {
    open spec fn parsed_from(v: SpecValue, r: Result<[T; 10], SpecCastError>) -> bool {
        fixed_parsed::<T, 10>(v, r)
    }

    fn parse(v: Value) -> (r: Result<[T; 10], CastError>) {
        parse_fixed::<T, 10>(v)
    }
}

impl<T: Parseable> Parseable for [T; 11] {
    open spec fn parsed_from(v: SpecValue, r: Result<[T; 11], SpecCastError>) -> bool {
        fixed_parsed::<T, 11>(v, r)
    }

    fn parse(v: Value) -> (r: Result<[T; 11], CastError>) {
        parse_fixed::<T, 11>(v)
    }
}

impl<T: Parseable> Parseable for [T; 12] {
    open spec fn parsed_from(v: SpecValue, r: Result<[T; 12], SpecCastError>) -> bool {
        fixed_parsed::<T, 12>(v, r)
    }

    fn parse(v: Value) -> (r: Result<[T; 12], CastError>) {
        parse_fixed::<T, 12>(v)
    }
}

impl<T: Parseable> Parseable for [T; 13] {
    open spec fn parsed_from(v: SpecValue, r: Result<[T; 13], SpecCastError>) -> bool {
        fixed_parsed::<T, 13>(v, r)
    }

    fn parse(v: Value) -> (r: Result<[T; 13], CastError>) {
        parse_fixed::<T, 13>(v)
    }
}

impl<T: Parseable> Parseable for [T; 14] {
    open spec fn parsed_from(v: SpecValue, r: Result<[T; 14], SpecCastError>) -> bool {
        fixed_parsed::<T, 14>(v, r)
    }

    fn parse(v: Value) -> (r: Result<[T; 14], CastError>) {
        parse_fixed::<T, 14>(v)
    }
}

impl<T: Parseable> Parseable for [T; 15] {
    open spec fn parsed_from(v: SpecValue, r: Result<[T; 15], SpecCastError>) -> bool {
        fixed_parsed::<T, 15>(v, r)
    }

    fn parse(v: Value) -> (r: Result<[T; 15], CastError>) {
        parse_fixed::<T, 15>(v)
    }
}

impl<T: Parseable> Parseable for [T; 16] {
    open spec fn parsed_from(v: SpecValue, r: Result<[T; 16], SpecCastError>) -> bool {
        fixed_parsed::<T, 16>(v, r)
    }

    fn parse(v: Value) -> (r: Result<[T; 16], CastError>) {
        parse_fixed::<T, 16>(v)
    }
}

impl<T: Parseable> Parseable for [T; 17] {
    open spec fn parsed_from(v: SpecValue, r: Result<[T; 17], SpecCastError>) -> bool {
        fixed_parsed::<T, 17>(v, r)
    }

    fn parse(v: Value) -> (r: Result<[T; 17], CastError>) {
        parse_fixed::<T, 17>(v)
    }
}

impl<T: Parseable> Parseable for [T; 18] {
    open spec fn parsed_from(v: SpecValue, r: Result<[T; 18], SpecCastError>) -> bool {
        fixed_parsed::<T, 18>(v, r)
    }

    fn parse(v: Value) -> (r: Result<[T; 18], CastError>) {
        parse_fixed::<T, 18>(v)
    }
}

impl<T: Parseable> Parseable for [T; 19] {
    open spec fn parsed_from(v: SpecValue, r: Result<[T; 19], SpecCastError>) -> bool {
        fixed_parsed::<T, 19>(v, r)
    }

    fn parse(v: Value) -> (r: Result<[T; 19], CastError>) {
        parse_fixed::<T, 19>(v)
    }
}

impl<T: Parseable> Parseable for [T; 20] {
    open spec fn parsed_from(v: SpecValue, r: Result<[T; 20], SpecCastError>) -> bool {
        fixed_parsed::<T, 20>(v, r)
    }

    fn parse(v: Value) -> (r: Result<[T; 20], CastError>) {
        parse_fixed::<T, 20>(v)
    }
}

/// Moves the text of `s` into a boxed `str`.
///
/// Calls `String::into_boxed_str`, which keeps the text.
#[verifier::external_body]
fn boxed_str(s: String) -> (b: Box<str>)
    ensures
        (*b)@ == s@,
{
    s.into_boxed_str()
}

/// Moves the items of `v` into a boxed slice.
///
/// Calls `Vec::into_boxed_slice`, which keeps the items and their order.
#[verifier::external_body]
fn boxed_slice<T>(v: Vec<T>) -> (b: Box<[T]>)
    ensures
        b@ == v@,
{
    v.into_boxed_slice()
}

impl Generable for bool {
    open spec fn obeys_generated_spec() -> bool {
        true
    }

    open spec fn generated(&self) -> SpecValue {
        SpecValue::Boolean(*self)
    }

    fn generate(self) -> (v: Value) {
        Value::Boolean(self)
    }

    fn generate_ref(&self) -> (v: Value) {
        Value::Boolean(*self)
    }
}

impl Generable for String {
    open spec fn obeys_generated_spec() -> bool {
        true
    }

    open spec fn generated(&self) -> SpecValue {
        SpecValue::QuotedString(self@)
    }

    fn generate(self) -> (v: Value) {
        Value::QuotedString(self)
    }

    fn generate_ref(&self) -> (v: Value) {
        Value::QuotedString(self.clone())
    }
}

impl<'a> Generable for &'a str {
    open spec fn obeys_generated_spec() -> bool {
        true
    }

    open spec fn generated(&self) -> SpecValue {
        SpecValue::QuotedString((**self)@)
    }

    fn generate(self) -> (v: Value) {
        Value::QuotedString(self.to_owned())
    }

    fn generate_ref(&self) -> (v: Value) {
        Value::QuotedString((*self).to_owned())
    }
}

impl<T: Generable> Generable for Box<T> {
    open spec fn obeys_generated_spec() -> bool {
        T::obeys_generated_spec()
    }

    open spec fn generated(&self) -> SpecValue {
        (**self).generated()
    }

    fn generate(self) -> (v: Value) {
        (*self).generate()
    }

    fn generate_ref(&self) -> (v: Value) {
        (**self).generate_ref()
    }
}

impl Generable for Box<str> {
    open spec fn obeys_generated_spec() -> bool {
        true
    }

    open spec fn generated(&self) -> SpecValue {
        SpecValue::QuotedString((**self)@)
    }

    fn generate(self) -> (v: Value) {
        Value::QuotedString((*self).to_owned())
    }

    fn generate_ref(&self) -> (v: Value) {
        Value::QuotedString((**self).to_owned())
    }
}

/// The models of the values that the items of `s` are generated into.
pub open spec fn generated_all<T: Generable>(s: Seq<T>) -> Seq<SpecValue> {
    s.map_values(|x: T| x.generated())
}

impl<T: Generable> Generable for Vec<T> {
    open spec fn obeys_generated_spec() -> bool {
        T::obeys_generated_spec()
    }

    open spec fn generated(&self) -> SpecValue {
        SpecValue::Array(generated_all(self@))
    }

    fn generate(self) -> (v: Value) {
        let ghost items = self@;
        let mut out: Vec<Value> = Vec::new();
        for x in it: self.into_iter()
            invariant
                it.seq() == items,
                out@.len() == it.index(),
                T::obeys_generated_spec() ==> forall|k: int| 0 <= k < out@.len() ==> #[trigger] out@[k]@ == items[k].generated(),
        {
            out.push(x.generate());
        }
        proof {
            lemma_values_view(out@);
            assert(out@.len() == items.len());
        }
        proof {
            if T::obeys_generated_spec() {
            assert forall|k: int| 0 <= k < items.len() implies #[trigger] values_view(out@)[k]
                == generated_all(items)[k] by {
                assert(out@[k]@ == items[k].generated());
            }
            assert(values_view(out@) =~= generated_all(items));
            }
        }
        Value::Array(out)
    }

    fn generate_ref(&self) -> (v: Value) {
        let mut out: Vec<Value> = Vec::new();
        let mut i: usize = 0;
        while i < self.len()
            invariant
                i <= self@.len(),
                out@.len() == i,
                T::obeys_generated_spec() ==> forall|k: int| 0 <= k < i ==> #[trigger] out@[k]@ == self@[k].generated(),
            decreases self@.len() - i,
        {
            out.push(self[i].generate_ref());
            i += 1;
        }
        proof {
            lemma_values_view(out@);
            if T::obeys_generated_spec() {
            assert forall|k: int| 0 <= k < self@.len() implies #[trigger] values_view(out@)[k]
                == generated_all(self@)[k] by {
                assert(out@[k]@ == self@[k].generated());
            }
            assert(values_view(out@) =~= generated_all(self@));
            }
        }
        Value::Array(out)
    }
}

impl<T: Generable> Generable for Option<T> {
    open spec fn obeys_generated_spec() -> bool {
        T::obeys_generated_spec()
    }

    open spec fn generated(&self) -> SpecValue {
        match self {
            Some(x) => x.generated(),
            None => SpecValue::Void,
        }
    }

    fn generate(self) -> (v: Value) {
        match self {
            Some(val) => val.generate(),
            None => Value::Void,
        }
    }

    fn generate_ref(&self) -> (v: Value) {
        match self {
            Some(val) => val.generate_ref(),
            None => Value::Void,
        }
    }
}

impl Generable for () {
    open spec fn obeys_generated_spec() -> bool {
        true
    }

    open spec fn generated(&self) -> SpecValue {
        SpecValue::Void
    }

    fn generate(self) -> (v: Value) {
        Value::Void
    }

    fn generate_ref(&self) -> (v: Value) {
        Value::Void
    }
}

/// A `u8` generated into a value parses back into itself.
pub proof fn law_round_trip_u8(x: u8)
    ensures
        u8::parsed_from(x.generated(), Ok(x)),
{
}

/// A `u16` generated into a value parses back into itself.
pub proof fn law_round_trip_u16(x: u16)
    ensures
        u16::parsed_from(x.generated(), Ok(x)),
{
}

/// A `u32` generated into a value parses back into itself.
pub proof fn law_round_trip_u32(x: u32)
    ensures
        u32::parsed_from(x.generated(), Ok(x)),
{
}

/// A `u64` that fits in 32 bits, generated into a value, parses back into
/// itself (a value holds 32 bits, so larger numbers lose their high bits).
pub proof fn law_round_trip_u64(x: u64)
    requires
        x <= u32::MAX,
    ensures
        u64::parsed_from(x.generated(), Ok(x)),
{
}

/// A `u128` that fits in 32 bits, generated into a value, parses back into
/// itself (a value holds 32 bits, so larger numbers lose their high bits).
pub proof fn law_round_trip_u128(x: u128)
    requires
        x <= u32::MAX,
    ensures
        u128::parsed_from(x.generated(), Ok(x)),
{
}

/// An `i8` generated into a value parses back into itself.
pub proof fn law_round_trip_i8(x: i8)
    ensures
        i8::parsed_from(x.generated(), Ok(x)),
{
}

/// An `i16` generated into a value parses back into itself.
pub proof fn law_round_trip_i16(x: i16)
    ensures
        i16::parsed_from(x.generated(), Ok(x)),
{
}

/// An `i32` generated into a value parses back into itself.
pub proof fn law_round_trip_i32(x: i32)
    ensures
        i32::parsed_from(x.generated(), Ok(x)),
{
}

/// An `i64` that fits in 32 bits, generated into a value, parses back into
/// itself (a value holds 32 bits, so larger numbers lose their high bits).
pub proof fn law_round_trip_i64(x: i64)
    requires
        i32::MIN <= x <= i32::MAX,
    ensures
        i64::parsed_from(x.generated(), Ok(x)),
{
}

/// An `i128` that fits in 32 bits, generated into a value, parses back into
/// itself (a value holds 32 bits, so larger numbers lose their high bits).
pub proof fn law_round_trip_i128(x: i128)
    requires
        i32::MIN <= x <= i32::MAX,
    ensures
        i128::parsed_from(x.generated(), Ok(x)),
{
}

/// A boolean generated into a value parses back into itself.
pub proof fn law_round_trip_bool(x: bool)
    ensures
        bool::parsed_from(x.generated(), Ok(x)),
{
}

/// A string generated into a value parses back into the same text.
pub proof fn law_round_trip_string(x: String)
    ensures
        String::parsed_from(x.generated(), Ok(x)),
{
}

/// `()` generated into a value parses back.
pub proof fn law_round_trip_unit()
    ensures
        <() as Parseable>::parsed_from(().generated(), Ok(())),
{
}

/// A vector whose items each parse back from what they are generated into
/// parses back into itself.
pub proof fn law_round_trip_vec<T: Parseable + Generable>(x: Vec<T>)
    requires
        forall|i: int| 0 <= i < x@.len() ==> T::parsed_from(#[trigger] x@[i].generated(), Ok(x@[i])),
    ensures
        Vec::<T>::parsed_from(x.generated(), Ok(x)),
{
    let a = generated_all(x@);
    assert forall|i: int| 0 <= i < a.len() implies #[trigger] T::parsed_from(a[i], Ok(x@[i])) by {
        assert(a[i] == x@[i].generated());
    }
}

/// An option parses back from what it is generated into, when its value
/// does and is not generated into `void` (which reads back as `None`).
pub proof fn law_round_trip_option<T: Parseable + Generable>(x: Option<T>)
    requires
        x matches Some(y) ==> T::parsed_from(y.generated(), Ok(y)) && !(y.generated() is Void),
    ensures
        Option::<T>::parsed_from(x.generated(), Ok(x)),
{
}

/// A text reads into a `Box<str>` as that text whether it was written quoted
/// or raw: a raw and a quoted string of the same text have the same outcomes.
pub proof fn law_boxed_str_ignores_quoting(t: Seq<char>, r: Result<Box<str>, SpecCastError>)
    ensures
        <Box<str> as Parseable>::parsed_from(SpecValue::RawString(t), r) <==> <Box<str> as Parseable>::parsed_from(
            SpecValue::QuotedString(t),
            r,
        ),
        <Box<str> as Parseable>::parsed_from(SpecValue::QuotedString(t), r) ==> r is Ok && (*r->Ok_0)@
            == t,
{
}

/// A `Box<str>` reads a value exactly as a `String` does: the same text for
/// the same value, and the same error.
pub proof fn law_boxed_str_reads_as_string(v: SpecValue, b: Box<str>, s: String, e: SpecCastError)
    requires
        (*b)@ == s@,
    ensures
        <Box<str> as Parseable>::parsed_from(v, Ok(b)) <==> <String as Parseable>::parsed_from(v, Ok(s)),
        <Box<str> as Parseable>::parsed_from(v, Err(e)) <==> <String as Parseable>::parsed_from(
            v,
            Err(e),
        ),
{
}

/// What a `Box<str>` is generated into reads back as its text, and nothing
/// else: generating then parsing gives the same string back.
pub proof fn law_boxed_str_round_trip(b: Box<str>, r: Result<Box<str>, SpecCastError>)
    ensures
        <Box<str> as Parseable>::parsed_from(b.generated(), r) ==> r is Ok && (*r->Ok_0)@ == (*b)@,
{
}

/// What a `String` is generated into reads back as the same text, and a raw
/// string reads as its text just as a quoted one does.
pub proof fn law_string_round_trip(x: String, t: Seq<char>, r: Result<String, SpecCastError>)
    ensures
        <String as Parseable>::parsed_from(x.generated(), r) ==> r is Ok && r->Ok_0@ == x@,
        <String as Parseable>::parsed_from(SpecValue::RawString(t), r) <==> <String as Parseable>::parsed_from(
            SpecValue::QuotedString(t),
            r,
        ),
{
}

} // verus!
