//! Keyframes read one by one from JSON, for value types that read
//! themselves from a JSON value, and targets that hold such keyframes.
use vstd::prelude::*;
use crate::error::TimelineError;
use crate::json::{JsonValue, spec_child};
use crate::text::str_eq;
use crate::data::{all_strings, names_of, read_names, strings_of};

verus! {

/// A value that keyframes can hold.
pub trait AnimatableValue: Sized {
    /// The value that a JSON value reads as, or why it cannot be read; left
    /// unknown by a value type that does not give it.
    closed spec fn value_of(value: JsonValue) -> Result<Self, TimelineError> {
        arbitrary()
    }

    /// The name by which targets name the type; left unknown by a value type
    /// that does not give it.
    closed spec fn spec_typ() -> Seq<char> {
        arbitrary()
    }

    /// Reads a value from JSON.
    fn from_value(value: &JsonValue) -> (r: Result<Self, TimelineError>)
        ensures
            r == Self::value_of(*value),
    ;

    /// The name of the type by which targets name it (the short type name,
    /// see `short_type_name`).
    fn typ() -> (r: &'static str)
        ensures
            r@ == Self::spec_typ(),
    ;
}

/// A keyframe: a value at a time.
pub struct TimelineKeyframe<T> {
    pub time: u32,
    pub data: T,
}

/// Reads the time of a keyframe member, in the order in which its members
/// are checked: `time` (a number), then `data`, which must be present.
pub open spec fn spec_keyframe_header(v: JsonValue) -> Result<u32, TimelineError> {
    if !(v is Object) {
        Err(TimelineError::IncorrectValueType("keyframe is not object"))
    } else {
        match spec_child(v, "time"@) {
            None => Err(TimelineError::IncorrectValueType("time(in keyframe) is not exist")),
            Some(JsonValue::Number(t)) => match spec_child(v, "data"@) {
                None => Err(TimelineError::IncorrectValueType("data(in keyframe) is not exist")),
                Some(_) => Ok(t.single),
            },
            Some(_) => Err(TimelineError::IncorrectValueType("time(in keyframe) is not number")),
        }
    }
}

/// The keyframe that a keyframe member reads as: its header, then its
/// `data` member read by the value type.
pub open spec fn spec_keyframe<T: AnimatableValue>(v: JsonValue) -> Result<TimelineKeyframe<T>, TimelineError> {
    match spec_keyframe_header(v) {
        Err(e) => Err(e),
        Ok(time) => match T::value_of(spec_child(v, "data"@)->Some_0) {
            Ok(data) => Ok(TimelineKeyframe { time, data }),
            Err(e) => Err(e),
        },
    }
}

impl<T: AnimatableValue> TimelineKeyframe<T> {
    /// Reads a keyframe member: its time as `spec_keyframe_header` says,
    /// then its data by the value type.
    pub fn from(value: &JsonValue) -> (r: Result<TimelineKeyframe<T>, TimelineError>)
        ensures
            r == spec_keyframe::<T>(*value),
    {
        if let JsonValue::Object(_) = value {
        } else {
            return Err(TimelineError::IncorrectValueType("keyframe is not object"));
        }
        let time = match value.child("time") {
            None => return Err(TimelineError::IncorrectValueType("time(in keyframe) is not exist")),
            Some(JsonValue::Number(t)) => t.single,
            Some(_) => return Err(TimelineError::IncorrectValueType("time(in keyframe) is not number")),
        };
        let data_value = match value.child("data") {
            None => return Err(TimelineError::IncorrectValueType("data(in keyframe) is not exist")),
            Some(d) => d,
        };
        let data = match T::from_value(data_value) {
            Ok(d) => d,
            Err(e) => return Err(e),
        };
        Ok(TimelineKeyframe { time, data })
    }
}

/// The keyframes that keyframe members read as, in order, or the failure
/// of the first member that cannot be read.
pub open spec fn spec_keyframes<T: AnimatableValue>(s: Seq<JsonValue>) -> Result<Seq<TimelineKeyframe<T>>, TimelineError>
    decreases s.len(),
{
    if s.len() == 0 {
        Ok(Seq::empty())
    } else {
        match spec_keyframes::<T>(s.drop_last()) {
            Err(e) => Err(e),
            Ok(ks) => match spec_keyframe::<T>(s.last()) {
                Ok(k) => Ok(ks.push(k)),
                Err(e) => Err(e),
            },
        }
    }
}

/// Once a prefix of the members fails, the whole list fails the same way.
pub proof fn lemma_keyframes_failure_stays<T: AnimatableValue>(s: Seq<JsonValue>, n: int)
    requires
        0 <= n <= s.len(),
        spec_keyframes::<T>(s.take(n)) is Err,
    ensures
        spec_keyframes::<T>(s) == spec_keyframes::<T>(s.take(n)),
    decreases s.len() - n,
{
    if n < s.len() {
        assert(s.take(n + 1).drop_last() =~= s.take(n));
        lemma_keyframes_failure_stays::<T>(s, n + 1);
    } else {
        assert(s.take(n) =~= s);
    }
}

/// Reads keyframe members in order, stopping at the first that cannot be read.
pub fn read_keyframes<T: AnimatableValue>(values: &Vec<JsonValue>) -> (r: Result<Vec<TimelineKeyframe<T>>, TimelineError>)
    ensures
        match r {
            Ok(ks) => spec_keyframes::<T>(values@) == Ok::<Seq<TimelineKeyframe<T>>, TimelineError>(ks@),
            Err(e) => spec_keyframes::<T>(values@) == Err::<Seq<TimelineKeyframe<T>>, TimelineError>(e),
        },
{
    let mut keyframes: Vec<TimelineKeyframe<T>> = Vec::with_capacity(values.len());
    let mut j: usize = 0;
    assert(values@.take(0) =~= Seq::<JsonValue>::empty());
    while j < values.len()
        invariant
            0 <= j <= values@.len(),
            spec_keyframes::<T>(values@.take(j as int)) == Ok::<Seq<TimelineKeyframe<T>>, TimelineError>(keyframes@),
        decreases values@.len() - j,
    {
        assert(values@.take(j + 1).drop_last() =~= values@.take(j as int));
        assert(values@.take(j + 1).last() == values@[j as int]);
        match TimelineKeyframe::<T>::from(&values[j]) {
            Ok(k) => keyframes.push(k),
            Err(e) => {
                proof {
                    lemma_keyframes_failure_stays::<T>(values@, j + 1);
                }
                return Err(e);
            },
        }
        j = j + 1;
    }
    assert(values@.take(values@.len() as int) =~= values@);
    Ok(keyframes)
}

/// The keyframes of one target, with the short name of their value type.
pub struct TimelineUntypedTarget<S> {
    pub typ: &'static str,
    pub target: Vec<String>,
    pub length: usize,
    pub data: S,
}

/// Reads the members of a target, in the order in which they are checked:
/// `target` (an array of strings, the path of names of the entity), then
/// `keyframes` (an array); gives the names and the keyframe members.
pub open spec fn spec_untyped_target_header(v: JsonValue) -> Result<(Seq<Seq<char>>, Seq<JsonValue>), TimelineError> {
    if !(v is Object) {
        Err(TimelineError::IncorrectValueType("target must be object"))
    } else {
        match spec_child(v, "target"@) {
            None => Err(TimelineError::IncorrectValueType("target not exist")),
            Some(JsonValue::Array(names)) => if !all_strings(names@) {
                Err(TimelineError::IncorrectValueType("target must be string"))
            } else {
                match spec_child(v, "keyframes"@) {
                    None => Err(TimelineError::IncorrectValueType("keyframes not exist")),
                    Some(JsonValue::Array(k)) => Ok((strings_of(names@), k@)),
                    Some(_) => Err(TimelineError::IncorrectValueType("keyframes is not array")),
                }
            },
            Some(_) => Err(TimelineError::IncorrectValueType("target must be string array")),
        }
    }
}

impl<S> TimelineUntypedTarget<S> {
    /// Reads a target member with keyframes of type `V`: its header as
    /// `spec_untyped_target_header` says, then each keyframe in order,
    /// stopping at the first failure.
    pub fn from<V: AnimatableValue>(value: &JsonValue) -> (r: Result<TimelineUntypedTarget<Vec<TimelineKeyframe<V>>>, TimelineError>)
        ensures
            match spec_untyped_target_header(*value) {
                Err(e) => r == Err::<TimelineUntypedTarget<Vec<TimelineKeyframe<V>>>, TimelineError>(e),
                Ok((names, members)) => match spec_keyframes::<V>(members) {
                    Err(e) => r == Err::<TimelineUntypedTarget<Vec<TimelineKeyframe<V>>>, TimelineError>(e),
                    Ok(ks) => r matches Ok(t) && {
                        &&& t.typ@ == V::spec_typ()
                        &&& names_of(t.target@) == names
                        &&& t.length == ks.len()
                        &&& t.data@ == ks
                    },
                },
            },
    {
        if let JsonValue::Object(_) = value {
        } else {
            return Err(TimelineError::IncorrectValueType("target must be object"));
        }
        let target = match value.child("target") {
            None => return Err(TimelineError::IncorrectValueType("target not exist")),
            Some(JsonValue::Array(n)) => match read_names(n) {
                Ok(v) => v,
                Err(e) => return Err(e),
            },
            Some(_) => return Err(TimelineError::IncorrectValueType("target must be string array")),
        };
        let keyframes_value = match value.child("keyframes") {
            None => return Err(TimelineError::IncorrectValueType("keyframes not exist")),
            Some(JsonValue::Array(k)) => k,
            Some(_) => return Err(TimelineError::IncorrectValueType("keyframes is not array")),
        };
        let keyframes = match read_keyframes::<V>(keyframes_value) {
            Ok(k) => k,
            Err(e) => return Err(e),
        };
        let length = keyframes.len();
        Ok(TimelineUntypedTarget { typ: V::typ(), target, length, data: keyframes })
    }

    /// The keyframes, when they are asked for as the type they hold.
    pub fn get_typed(&self, request: &'static str) -> (r: Result<&S, TimelineError>)
        ensures
            request@ == self.typ@ ==> r == Ok::<&S, TimelineError>(&self.data),
            request@ != self.typ@ ==> r == Err::<&S, TimelineError>(
                TimelineError::TypeNotMatch { request, actual: self.typ },
            ),
    {
        if str_eq(request, self.typ) {
            Ok(&self.data)
        } else {
            Err(TimelineError::TypeNotMatch { request, actual: self.typ })
        }
    }

    /// Puts `data` in place of the keyframes, and gives back the keyframes.
    pub fn replace_data<E>(self, data: E) -> (r: (TimelineUntypedTarget<E>, S))
        ensures
            r.0.typ == self.typ,
            r.0.target == self.target,
            r.0.length == self.length,
            r.0.data == data,
            r.1 == self.data,
    {
        (TimelineUntypedTarget { typ: self.typ, target: self.target, length: self.length, data }, self.data)
    }
}

} // verus!
