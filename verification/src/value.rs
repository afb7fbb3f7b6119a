//! The transform's value types (scale, rotation and translation), read from
//! JSON arrays of numbers, and the reading of a target's keyframe values by
//! the value type that it names.
use vstd::prelude::*;
use crate::data::{TimelineImplSets, TimelineUntypedSeq};
use crate::error::{JsonFailure, TimelineError};
use crate::json::{JsonValue, all_numbers, singles};
use crate::keyframe::AnimatableValue;
use crate::text::str_eq;

verus! {

/// `s[i]` is the first value of `s` that is not a number.
pub open spec fn first_non_number(s: Seq<JsonValue>, i: int) -> bool {
    &&& 0 <= i < s.len()
    &&& !(s[i] is Number)
    &&& forall|j: int| 0 <= j < i ==> (#[trigger] s[j]) is Number
}

/// The failure to read a JSON value as a value type, with its message.
pub open spec fn shape_error(message: &'static str) -> TimelineError {
    TimelineError::JsonError(JsonFailure::Shape(message))
}

/// The numbers of an array of exactly `n` numbers: anything else than an
/// array of `n` values fails with the JSON error `shape`, and the first value
/// that is not a number, at `i`, fails with the JSON error `element[i]`.
pub open spec fn spec_vector(v: JsonValue, n: nat, shape: &'static str, element: Seq<&'static str>) -> Result<
    Seq<u32>,
    TimelineError,
> {
    match v {
        JsonValue::Array(a) => if a@.len() != n {
            Err(shape_error(shape))
        } else if all_numbers(a@) {
            Ok(singles(a@))
        } else {
            Err(shape_error(element[choose|i: int| first_non_number(a@, i)]))
        },
        _ => Err(shape_error(shape)),
    }
}

/// Reads an array of exactly `element.len()` numbers, as `spec_vector` says.
fn read_vector(value: &JsonValue, shape: &'static str, element: &[&'static str]) -> (r: Result<Vec<u32>, TimelineError>)
    ensures
        match r {
            Ok(v) => spec_vector(*value, element@.len(), shape, element@) == Ok::<Seq<u32>, TimelineError>(v@),
            Err(e) => spec_vector(*value, element@.len(), shape, element@) == Err::<Seq<u32>, TimelineError>(e),
        },
{
    let values = match value {
        JsonValue::Array(a) => a,
        _ => return Err(TimelineError::JsonError(JsonFailure::Shape(shape))),
    };
    if values.len() != element.len() {
        return Err(TimelineError::JsonError(JsonFailure::Shape(shape)));
    }
    let mut out: Vec<u32> = Vec::with_capacity(values.len());
    let mut i: usize = 0;
    while i < values.len()
        invariant
            0 <= i <= values@.len(),
            values@.len() == element@.len(),
            *value == JsonValue::Array(*values),
            out@ == singles(values@).take(i as int),
            forall|j: int| 0 <= j < i ==> (#[trigger] values@[j]) is Number,
        decreases values@.len() - i,
    {
        match &values[i] {
            JsonValue::Number(x) => out.push(x.single),
            _ => {
                proof {
                    assert(first_non_number(values@, i as int));
                    assert(!all_numbers(values@));
                    let c = choose|c: int| first_non_number(values@, c);
                    if c < i {
                        assert(values@[c] is Number);
                    } else if c > i {
                        assert(values@[i as int] is Number);
                    }
                }
                return Err(TimelineError::JsonError(JsonFailure::Shape(element[i])));
            },
        }
        assert(out@ =~= singles(values@).take(i + 1));
        i = i + 1;
    }
    assert(out@ =~= singles(values@));
    Ok(out)
}

/// The scale of a transform: the x, y and z factors, as bits of single
/// precision numbers.
#[derive(Debug, Clone, Copy, PartialEq, Eq, Structural)]
pub struct Scale {
    pub x: u32,
    pub y: u32,
    pub z: u32,
}

/// The rotation of a transform: the quaternion's x, y, z and w, as bits of
/// single precision numbers.
#[derive(Debug, Clone, Copy, PartialEq, Eq, Structural)]
pub struct Rotation {
    pub x: u32,
    pub y: u32,
    pub z: u32,
    pub w: u32,
}

/// The translation of a transform: x, y and z, as bits of single precision
/// numbers.
#[derive(Debug, Clone, Copy, PartialEq, Eq, Structural)]
pub struct Translation {
    pub x: u32,
    pub y: u32,
    pub z: u32,
}

/// The messages for the values of a scale that are not numbers.
pub open spec fn scale_errors() -> Seq<&'static str> {
    seq!["invalid type at `Scale`[0], expected f32", "invalid type at `Scale`[1], expected f32", "invalid type at `Scale`[2], expected f32"]
}

/// The messages for the values of a rotation that are not numbers.
pub open spec fn rotation_errors() -> Seq<&'static str> {
    seq![
        "invalid type at `Rotation`[0], expected f32",
        "invalid type at `Rotation`[1], expected f32",
        "invalid type at `Rotation`[2], expected f32",
        "invalid type at `Rotation`[3], expected f32",
    ]
}

/// The messages for the values of a translation that are not numbers.
pub open spec fn translation_errors() -> Seq<&'static str> {
    seq![
        "invalid type at `Translation`[0], expected f32",
        "invalid type at `Translation`[1], expected f32",
        "invalid type at `Translation`[2], expected f32",
    ]
}

impl AnimatableValue for Scale {
    open spec fn value_of(value: JsonValue) -> Result<Self, TimelineError> {
        match spec_vector(value, 3, "invalid value for `Scale`, expected a sequence of 3 f32", scale_errors()) {
            Ok(v) => Ok(Scale { x: v[0], y: v[1], z: v[2] }),
            Err(e) => Err(e),
        }
    }

    open spec fn spec_typ() -> Seq<char> {
        "Scale"@
    }

    fn from_value(value: &JsonValue) -> (r: Result<Self, TimelineError>) {
        let element = ["invalid type at `Scale`[0], expected f32", "invalid type at `Scale`[1], expected f32", "invalid type at `Scale`[2], expected f32"];
        assert(element@ == scale_errors());
        match read_vector(value, "invalid value for `Scale`, expected a sequence of 3 f32", &element) {
            Ok(v) => Ok(Scale { x: v[0], y: v[1], z: v[2] }),
            Err(e) => Err(e),
        }
    }

    fn typ() -> (r: &'static str) {
        "Scale"
    }
}

impl AnimatableValue for Rotation {
    open spec fn value_of(value: JsonValue) -> Result<Self, TimelineError> {
        match spec_vector(value, 4, "invalid value for `Rotation`, expected a sequence of 4 f32", rotation_errors()) {
            Ok(v) => Ok(Rotation { x: v[0], y: v[1], z: v[2], w: v[3] }),
            Err(e) => Err(e),
        }
    }

    open spec fn spec_typ() -> Seq<char> {
        "Rotation"@
    }

    fn from_value(value: &JsonValue) -> (r: Result<Self, TimelineError>) {
        let element = [
            "invalid type at `Rotation`[0], expected f32",
            "invalid type at `Rotation`[1], expected f32",
            "invalid type at `Rotation`[2], expected f32",
            "invalid type at `Rotation`[3], expected f32",
        ];
        assert(element@ == rotation_errors());
        match read_vector(value, "invalid value for `Rotation`, expected a sequence of 4 f32", &element) {
            Ok(v) => Ok(Rotation { x: v[0], y: v[1], z: v[2], w: v[3] }),
            Err(e) => Err(e),
        }
    }

    fn typ() -> (r: &'static str) {
        "Rotation"
    }
}

impl AnimatableValue for Translation {
    open spec fn value_of(value: JsonValue) -> Result<Self, TimelineError> {
        match spec_vector(value, 3, "invalid value for `Translation`, expected a sequence of 3 f32", translation_errors()) {
            Ok(v) => Ok(Translation { x: v[0], y: v[1], z: v[2] }),
            Err(e) => Err(e),
        }
    }

    open spec fn spec_typ() -> Seq<char> {
        "Translation"@
    }

    fn from_value(value: &JsonValue) -> (r: Result<Self, TimelineError>) {
        let element = [
            "invalid type at `Translation`[0], expected f32",
            "invalid type at `Translation`[1], expected f32",
            "invalid type at `Translation`[2], expected f32",
        ];
        assert(element@ == translation_errors());
        match read_vector(value, "invalid value for `Translation`, expected a sequence of 3 f32", &element) {
            Ok(v) => Ok(Translation { x: v[0], y: v[1], z: v[2] }),
            Err(e) => Err(e),
        }
    }

    fn typ() -> (r: &'static str) {
        "Translation"
    }
}

/// The values that keyframe values read as, in order, or the failure of the
/// first that cannot be read.
pub open spec fn spec_values<V: AnimatableValue>(s: Seq<JsonValue>) -> Result<Seq<V>, TimelineError>
    decreases s.len(),
{
    if s.len() == 0 {
        Ok(Seq::empty())
    } else {
        match spec_values::<V>(s.drop_last()) {
            Err(e) => Err(e),
            Ok(vs) => match V::value_of(s.last()) {
                Ok(v) => Ok(vs.push(v)),
                Err(e) => Err(e),
            },
        }
    }
}

/// Once a prefix of the values fails, the whole list fails the same way.
proof fn lemma_values_failure_stays<V: AnimatableValue>(s: Seq<JsonValue>, n: int)
    requires
        0 <= n <= s.len(),
        spec_values::<V>(s.take(n)) is Err,
    ensures
        spec_values::<V>(s) == spec_values::<V>(s.take(n)),
    decreases s.len() - n,
{
    if n < s.len() {
        assert(s.take(n + 1).drop_last() =~= s.take(n));
        lemma_values_failure_stays::<V>(s, n + 1);
    } else {
        assert(s.take(n) =~= s);
    }
}

/// Reads the keyframe values of a target when the target names the value
/// type `V`: `None` for another name, otherwise the values in order, or the
/// failure of the first that cannot be read.
pub fn resolve_values<V: AnimatableValue>(typ: &str, values: &[JsonValue]) -> (r: Option<
    Result<TimelineUntypedSeq<Vec<V>>, TimelineError>,
>)
    ensures
        typ@ != V::spec_typ() ==> r is None,
        typ@ == V::spec_typ() ==> match spec_values::<V>(values@) {
            Ok(vs) => r matches Some(Ok(seq)) && seq.typ@ == typ@ && seq.length == vs.len() && seq.data@ == vs,
            Err(e) => r == Some(Err::<TimelineUntypedSeq<Vec<V>>, TimelineError>(e)),
        },
{
    let name = V::typ();
    if !str_eq(typ, name) {
        return None;
    }
    let mut data: Vec<V> = Vec::with_capacity(values.len());
    let mut j: usize = 0;
    assert(values@.take(0) =~= Seq::<JsonValue>::empty());
    while j < values.len()
        invariant
            0 <= j <= values@.len(),
            typ@ == V::spec_typ(),
            spec_values::<V>(values@.take(j as int)) == Ok::<Seq<V>, TimelineError>(data@),
        decreases values@.len() - j,
    {
        assert(values@.take(j + 1).drop_last() =~= values@.take(j as int));
        assert(values@.take(j + 1).last() == values@[j as int]);
        match V::from_value(&values[j]) {
            Ok(v) => data.push(v),
            Err(e) => {
                proof {
                    lemma_values_failure_stays::<V>(values@, j + 1);
                }
                return Some(Err(e));
            },
        }
        j = j + 1;
    }
    assert(values@.take(values@.len() as int) =~= values@);
    let length = data.len();
    Some(Ok(TimelineUntypedSeq { typ: name, length, data }))
}

/// Keyframe values stored by a list of value types `(A, Rest)`: values of
/// the first type `A`, or values stored by the rest of the list.
pub enum ListValues<A, S> {
    First(Vec<A>),
    Rest(S),
}

/// The empty list of value types: it knows no type name.
impl TimelineImplSets for () {
    type Storage = ();

    open spec fn spec_resolve(typ: Seq<char>, keyframes: Seq<JsonValue>) -> Option<Result<nat, TimelineError>> {
        None
    }

    open spec fn stores(data: (), typ: Seq<char>, keyframes: Seq<JsonValue>) -> bool {
        false
    }

    fn try_resolve_keyframes(typ: &str, keyframes: &[JsonValue]) -> (r: Option<Result<TimelineUntypedSeq<()>, TimelineError>>) {
        None
    }
}

/// The list of value types `A`, then those of `R`: keyframes are read by `A`
/// when the target names it, otherwise by the rest of the list.
impl<A: AnimatableValue, R: TimelineImplSets> TimelineImplSets for (A, R) {
    type Storage = ListValues<A, R::Storage>;

    open spec fn spec_resolve(typ: Seq<char>, keyframes: Seq<JsonValue>) -> Option<Result<nat, TimelineError>> {
        if typ == A::spec_typ() {
            match spec_values::<A>(keyframes) {
                Ok(vs) => Some(Ok(vs.len())),
                Err(e) => Some(Err(e)),
            }
        } else {
            R::spec_resolve(typ, keyframes)
        }
    }

    open spec fn stores(data: ListValues<A, R::Storage>, typ: Seq<char>, keyframes: Seq<JsonValue>) -> bool {
        match data {
            ListValues::First(v) => typ == A::spec_typ() && spec_values::<A>(keyframes) == Ok::<Seq<A>, TimelineError>(v@),
            ListValues::Rest(s) => typ != A::spec_typ() && R::stores(s, typ, keyframes),
        }
    }

    fn try_resolve_keyframes(typ: &str, keyframes: &[JsonValue]) -> (r: Option<
        Result<TimelineUntypedSeq<ListValues<A, R::Storage>>, TimelineError>,
    >) {
        match resolve_values::<A>(typ, keyframes) {
            Some(Ok(seq)) => Some(Ok(TimelineUntypedSeq { typ: seq.typ, length: seq.length, data: ListValues::First(seq.data) })),
            Some(Err(e)) => Some(Err(e)),
            None => match R::try_resolve_keyframes(typ, keyframes) {
                Some(Ok(seq)) => Some(Ok(TimelineUntypedSeq { typ: seq.typ, length: seq.length, data: ListValues::Rest(seq.data) })),
                Some(Err(e)) => Some(Err(e)),
                None => None,
            },
        }
    }
}

/// The `k`-th value of an array, as the bits of a single precision number,
/// where it is a number.
pub open spec fn number_at(v: Seq<JsonValue>, k: int) -> u32 {
    v[k]->Number_0.single
}

/// Reading an array of three numbers `[a, b, c]` gives the scale and the
/// translation `x = a`, `y = b`, `z = c`, and reading an array of four
/// numbers `[a, b, c, d]` gives the rotation `x = a`, `y = b`, `z = c`,
/// `w = d`: the `k`-th number is the `k`-th coordinate.
pub proof fn lemma_coordinates_in_order(v: Vec<JsonValue>)
    requires
        forall|k: int| 0 <= k < v@.len() ==> (#[trigger] v@[k]) is Number,
    ensures
        v@.len() == 3 ==> Scale::value_of(JsonValue::Array(v)) == Ok::<Scale, TimelineError>(
            Scale { x: number_at(v@, 0), y: number_at(v@, 1), z: number_at(v@, 2) },
        ),
        v@.len() == 3 ==> Translation::value_of(JsonValue::Array(v)) == Ok::<Translation, TimelineError>(
            Translation { x: number_at(v@, 0), y: number_at(v@, 1), z: number_at(v@, 2) },
        ),
        v@.len() == 4 ==> Rotation::value_of(JsonValue::Array(v)) == Ok::<Rotation, TimelineError>(
            Rotation { x: number_at(v@, 0), y: number_at(v@, 1), z: number_at(v@, 2), w: number_at(v@, 3) },
        ),
{
    assert(all_numbers(v@));
}

/// An array that is not of the length of the value type, or any value that
/// is not an array, cannot be read as the transform's value types; nor can
/// an array with a value that is not a number.
pub proof fn lemma_unreadable_values(value: JsonValue)
    ensures
        !(value matches JsonValue::Array(a) && a@.len() == 3 && all_numbers(a@)) ==> Scale::value_of(value) is Err
            && Translation::value_of(value) is Err,
        !(value matches JsonValue::Array(a) && a@.len() == 4 && all_numbers(a@)) ==> Rotation::value_of(value) is Err,
{
}

} // verus!
