//! A JSON document as the timeline loader reads it.
//!
//! Numbers keep how they were written (an unsigned or negative integer, or a
//! double precision number by its bits) together with the bits of the single
//! precision number that they read as.
use vstd::prelude::*;
use crate::entries::{find_entry, find_key, lookup, names_view, lemma_find_key_found};
use crate::error::TimelineError;

verus! {

/// How a JSON number was written.
#[derive(Debug, Clone, Copy, PartialEq, Eq, Structural)]
pub enum NumberRepr {
    PosInt(u64),
    NegInt(i64),
    /// A double precision number, by its bits.
    Float(u64),
}

/// A JSON number.
#[derive(Debug, Clone, Copy, PartialEq, Eq, Structural)]
pub struct JsonNumber {
    pub repr: NumberRepr,
    /// The number as a single precision number, by its bits.
    pub single: u32,
}

/// A JSON value.
#[derive(Debug)]
pub enum JsonValue {
    Null,
    Bool(bool),
    Number(JsonNumber),
    String(String),
    Array(Vec<JsonValue>),
    /// The members of an object, in order; the first member with a name is
    /// the one that counts.
    Object(Vec<(String, JsonValue)>),
}

/// The value as a single precision number.
pub open spec fn spec_as_f32(v: JsonValue) -> Result<u32, TimelineError> {
    match v {
        JsonValue::Number(n) => Ok(n.single),
        _ => Err(TimelineError::IncorrectValueType("not a number")),
    }
}

/// Whether every value is a number.
pub open spec fn all_numbers(s: Seq<JsonValue>) -> bool {
    forall|i: int| 0 <= i < s.len() ==> (#[trigger] s[i]) is Number
}

/// The numbers as single precision numbers.
pub open spec fn singles(s: Seq<JsonValue>) -> Seq<u32> {
    Seq::new(
        s.len(),
        |i: int|
            match s[i] {
                JsonValue::Number(n) => n.single,
                _ => 0u32,
            },
    )
}

/// The value as an array of single precision numbers.
pub open spec fn spec_as_array_f32(v: JsonValue) -> Result<Seq<u32>, TimelineError> {
    match v {
        JsonValue::Array(a) => if all_numbers(a@) {
            Ok(singles(a@))
        } else {
            Err(TimelineError::IncorrectValueType("not a number"))
        },
        _ => Err(TimelineError::IncorrectValueType("not array")),
    }
}

/// The value as an array of exactly `size` single precision numbers.
pub open spec fn spec_as_fixed_array_f32(v: JsonValue, size: usize) -> Result<Seq<u32>, TimelineError> {
    match v {
        JsonValue::Array(a) => if a@.len() != size {
            Err(TimelineError::InvalidLength { required: size, actual: a@.len() as usize })
        } else {
            spec_as_array_f32(v)
        },
        _ => Err(TimelineError::IncorrectValueType("not array")),
    }
}

/// A member looked up by `key`, read by `read`, or `NotExistItem(key)`.
pub open spec fn spec_get<T>(v: JsonValue, key: &'static str, read: spec_fn(JsonValue) -> Result<T, TimelineError>) -> Result<T, TimelineError> {
    match spec_child(v, key@) {
        Some(c) => read(c),
        None => Err(TimelineError::NotExistItem(key)),
    }
}

/// The member named `key` of an object.
pub open spec fn spec_child(v: JsonValue, key: Seq<char>) -> Option<JsonValue> {
    match v {
        JsonValue::Object(members) => lookup(names_view(members@), key),
        _ => None,
    }
}

impl JsonValue {
    /// The member named `key`, for an object.
    pub fn child(&self, key: &str) -> (r: Option<&JsonValue>)
        ensures
            match r {
                Some(c) => spec_child(*self, key@) == Some(*c),
                None => spec_child(*self, key@) is None,
            },
    {
        match self {
            JsonValue::Object(members) => {
                proof {
                    lemma_find_key_found(names_view(members@), key@);
                }
                match find_entry(members, key) {
                    Some(i) => Some(&members[i].1),
                    None => None,
                }
            },
            _ => None,
        }
    }

    /// Reads a number as a single precision number.
    pub fn as_f32(&self) -> (r: Result<u32, TimelineError>)
        ensures
            r == spec_as_f32(*self),
    {
        match self {
            JsonValue::Number(n) => Ok(n.single),
            _ => Err(TimelineError::IncorrectValueType("not a number")),
        }
    }

    /// Reads the numbers of a list of values.
    fn numbers_f32(values: &Vec<JsonValue>) -> (r: Result<Vec<u32>, TimelineError>)
        ensures
            all_numbers(values@) ==> (r matches Ok(v) && v@ == singles(values@)),
            !all_numbers(values@) ==> r == Err::<Vec<u32>, TimelineError>(TimelineError::IncorrectValueType("not a number")),
    {
        let mut out: Vec<u32> = Vec::with_capacity(values.len());
        let mut i: usize = 0;
        while i < values.len()
            invariant
                0 <= i <= values@.len(),
                out@ == singles(values@).take(i as int),
                forall|j: int| 0 <= j < i ==> (#[trigger] values@[j]) is Number,
            decreases values@.len() - i,
        {
            match values[i].as_f32() {
                Ok(x) => out.push(x),
                Err(e) => return Err(e),
            }
            assert(out@ =~= singles(values@).take(i + 1));
            i = i + 1;
        }
        assert(out@ =~= singles(values@));
        Ok(out)
    }

    /// Reads an array of exactly `size` numbers.
    pub fn as_fixed_array_f32(&self, size: usize) -> (r: Result<Vec<u32>, TimelineError>)
        ensures
            match r {
                Ok(v) => spec_as_fixed_array_f32(*self, size) == Ok::<Seq<u32>, TimelineError>(v@),
                Err(e) => spec_as_fixed_array_f32(*self, size) == Err::<Seq<u32>, TimelineError>(e),
            },
    {
        match self {
            JsonValue::Array(values) => {
                if values.len() != size {
                    return Err(TimelineError::InvalidLength { required: size, actual: values.len() });
                }
                JsonValue::numbers_f32(values)
            },
            _ => Err(TimelineError::IncorrectValueType("not array")),
        }
    }

    /// Reads an array of numbers.
    pub fn as_array_f32(&self) -> (r: Result<Vec<u32>, TimelineError>)
        ensures
            match r {
                Ok(v) => spec_as_array_f32(*self) == Ok::<Seq<u32>, TimelineError>(v@),
                Err(e) => spec_as_array_f32(*self) == Err::<Seq<u32>, TimelineError>(e),
            },
    {
        match self {
            JsonValue::Array(values) => JsonValue::numbers_f32(values),
            _ => Err(TimelineError::IncorrectValueType("not array")),
        }
    }

    /// Reads the member `key` as a number.
    pub fn get_f32(&self, key: &'static str) -> (r: Result<u32, TimelineError>)
        ensures
            r == spec_get(*self, key, |c: JsonValue| spec_as_f32(c)),
    {
        match self.child(key) {
            Some(c) => c.as_f32(),
            None => Err(TimelineError::NotExistItem(key)),
        }
    }

    /// Reads the member `key` as an array of exactly `size` numbers.
    pub fn get_fixed_array_f32(&self, key: &'static str, size: usize) -> (r: Result<Vec<u32>, TimelineError>)
        ensures
            match r {
                Ok(v) => spec_get(*self, key, |c: JsonValue| spec_as_fixed_array_f32(c, size)) == Ok::<Seq<u32>, TimelineError>(v@),
                Err(e) => spec_get(*self, key, |c: JsonValue| spec_as_fixed_array_f32(c, size)) == Err::<Seq<u32>, TimelineError>(e),
            },
    {
        match self.child(key) {
            Some(c) => c.as_fixed_array_f32(size),
            None => Err(TimelineError::NotExistItem(key)),
        }
    }

    /// Reads the member `key` as an array of numbers.
    pub fn get_array_f32(&self, key: &'static str) -> (r: Result<Vec<u32>, TimelineError>)
        ensures
            match r {
                Ok(v) => spec_get(*self, key, |c: JsonValue| spec_as_array_f32(c)) == Ok::<Seq<u32>, TimelineError>(v@),
                Err(e) => spec_get(*self, key, |c: JsonValue| spec_as_array_f32(c)) == Err::<Seq<u32>, TimelineError>(e),
            },
    {
        match self.child(key) {
            Some(c) => c.as_array_f32(),
            None => Err(TimelineError::NotExistItem(key)),
        }
    }
}

} // verus!
