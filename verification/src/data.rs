//! Animations as they are loaded from a JSON document: each has a name, a
//! duration and targets, and each target holds the times of its keyframes
//! and the keyframes themselves, read by the value type that it names.
use vstd::prelude::*;
use crate::error::TimelineError;
use crate::json::{JsonValue, spec_child, spec_as_array_f32};
use crate::text::str_eq;

verus! {

/// Keyframe values of one type, kept as the caller stores them.
pub struct TimelineUntypedSeq<S> {
    /// Short name of the value type.
    pub typ: &'static str,
    /// Number of keyframe values.
    pub length: usize,
    /// The values.
    pub data: S,
}

impl<S> TimelineUntypedSeq<S> {
    /// The values, when they are asked for as the type that they hold.
    pub fn get_typed(&self, request: &'static str) -> (r: Result<&S, TimelineError>)
        ensures
            request@ == self.typ@ ==> r == Ok::<&S, TimelineError>(&self.data),
            request@ != self.typ@ ==> r == Err::<&S, TimelineError>(
                TimelineError::TypeNotMatch { request, actual: self.typ },
            ),
    {
        if str_eq(request, self.typ) {
            Ok(&self.data)
        } else {
            Err(TimelineError::TypeNotMatch { request, actual: self.typ })
        }
    }
}

/// Turns the keyframe values of a target into stored values, for a list of
/// value types: the first type of the list whose name the target gives reads
/// them (see `value::ListValues` for the lists).
pub trait TimelineImplSets {
    /// How keyframe values are stored.
    type Storage;

    /// What reading `keyframes` as values of the type named `typ` gives:
    /// `None` when no type of the list has that name, otherwise the failure
    /// of the first value that cannot be read, or the number of values.
    spec fn spec_resolve(typ: Seq<char>, keyframes: Seq<JsonValue>) -> Option<Result<nat, TimelineError>>;

    /// Whether `data` stores the values that `keyframes` read as, by the type
    /// of the list named `typ`.
    spec fn stores(data: Self::Storage, typ: Seq<char>, keyframes: Seq<JsonValue>) -> bool;

    /// Reads `keyframes` as values of the type named `typ`; `None` when no
    /// type of the list has that name.
    fn try_resolve_keyframes(typ: &str, keyframes: &[JsonValue]) -> (r: Option<
        Result<TimelineUntypedSeq<Self::Storage>, TimelineError>,
    >)
        ensures
            match Self::spec_resolve(typ@, keyframes@) {
                None => r is None,
                Some(Err(e)) => r == Some(Err::<TimelineUntypedSeq<Self::Storage>, TimelineError>(e)),
                Some(Ok(n)) => r matches Some(Ok(seq)) && {
                    &&& seq.typ@ == typ@
                    &&& seq.length == n
                    &&& Self::stores(seq.data, typ@, keyframes@)
                },
            },
    ;
}

/// What a target member of an animation holds before its keyframes are read.
pub struct TargetHeader {
    pub typ: Seq<char>,
    pub target: Seq<Seq<char>>,
    pub times: Seq<u32>,
    pub seq: Seq<JsonValue>,
}

/// Whether every value is a string.
pub open spec fn all_strings(s: Seq<JsonValue>) -> bool {
    forall|i: int| 0 <= i < s.len() ==> (#[trigger] s[i]) is String
}

/// The strings of a list of string values.
pub open spec fn strings_of(s: Seq<JsonValue>) -> Seq<Seq<char>> {
    Seq::new(
        s.len(),
        |i: int|
            match s[i] {
                JsonValue::String(x) => x@,
                _ => Seq::empty(),
            },
    )
}

/// Reads the members of a target, in the order in which they are checked:
/// `typ` (a string), `target` (an array of strings), `times` (an array of
/// numbers) and `seq` (an array).
pub open spec fn spec_target_header(v: JsonValue) -> Result<TargetHeader, TimelineError> {
    if !(v is Object) {
        Err(TimelineError::IncorrectValueType("target must be object"))
    } else {
        match spec_child(v, "typ"@) {
            None => Err(TimelineError::IncorrectValueType("typ not exist")),
            Some(JsonValue::String(typ)) => match spec_child(v, "target"@) {
                None => Err(TimelineError::IncorrectValueType("target not exist")),
                Some(JsonValue::Array(names)) => if !all_strings(names@) {
                    Err(TimelineError::IncorrectValueType("target must be string"))
                } else {
                    match spec_child(v, "times"@) {
                        None => Err(TimelineError::IncorrectValueType("times not exist")),
                        Some(t) => match spec_as_array_f32(t) {
                            Err(e) => Err(e),
                            Ok(times) => match spec_child(v, "seq"@) {
                                None => Err(TimelineError::IncorrectValueType("keyframes not exist")),
                                Some(JsonValue::Array(seq)) => Ok(
                                    TargetHeader { typ: typ@, target: strings_of(names@), times, seq: seq@ },
                                ),
                                Some(_) => Err(TimelineError::IncorrectValueType("keyframes is not array")),
                            },
                        },
                    }
                },
                Some(_) => Err(TimelineError::IncorrectValueType("target must be string array")),
            },
            Some(_) => Err(TimelineError::IncorrectValueType("typ must be string")),
        }
    }
}

/// The keyframes of one target of an animation.
pub struct TimelineTarget<S> {
    /// The path of names of the entity that the target animates.
    pub target: Vec<String>,
    /// Which keyframes are selected (for editing); none at first.
    pub selected: Vec<bool>,
    /// The times of the keyframes.
    pub times: Vec<u32>,
    /// The keyframe values.
    pub seq: TimelineUntypedSeq<S>,
}

/// The names as character sequences.
pub open spec fn names_of(v: Seq<String>) -> Seq<Seq<char>> {
    Seq::new(v.len(), |i: int| v[i]@)
}

/// `t` holds what the header gives, with nothing selected.
pub open spec fn target_fits<S>(t: TimelineTarget<S>, h: TargetHeader) -> bool {
    &&& names_of(t.target@) == h.target
    &&& t.times@ == h.times
    &&& t.selected@ == Seq::new(h.times.len(), |i: int| false)
}

impl<S> TimelineTarget<S> {
    /// Short name of the type of the keyframe values.
    pub fn typ(&self) -> (r: &'static str)
        ensures
            r == self.seq.typ,
    {
        self.seq.typ
    }

    /// The times of the keyframes.
    pub fn get_times(&self) -> (r: &[u32])
        ensures
            r@ == self.times@,
    {
        self.times.as_slice()
    }

    /// The times and the selection marks, to change them.
    pub fn get_times_with_selected(&mut self) -> (r: (&mut Vec<u32>, &mut Vec<bool>))
        ensures
            *r.0 == old(self).times,
            *r.1 == old(self).selected,
            final(self).times == *final(r.0),
            final(self).selected == *final(r.1),
            final(self).target == old(self).target,
            final(self).seq == old(self).seq,
    {
        (&mut self.times, &mut self.selected)
    }

    /// The keyframe values, when they are asked for as the type they hold.
    pub fn get_typed(&self, request: &'static str) -> (r: Result<&S, TimelineError>)
        ensures
            request@ == self.seq.typ@ ==> r == Ok::<&S, TimelineError>(&self.seq.data),
            request@ != self.seq.typ@ ==> r == Err::<&S, TimelineError>(
                TimelineError::TypeNotMatch { request, actual: self.seq.typ },
            ),
    {
        self.seq.get_typed(request)
    }
}


/// What a target member holds before its keyframes are read, borrowed from the document.
pub struct TargetParts<'a> {
    pub typ: &'a str,
    pub target: Vec<String>,
    pub times: Vec<u32>,
    pub seq: &'a Vec<JsonValue>,
}

/// `parts` holds what the header gives.
pub open spec fn parts_fit(parts: TargetParts, h: TargetHeader) -> bool {
    &&& parts.typ@ == h.typ
    &&& names_of(parts.target@) == h.target
    &&& parts.times@ == h.times
    &&& parts.seq@ == h.seq
}

/// Reads the strings of an array whose values are all strings, or fails.
pub(crate) fn read_names(names: &Vec<JsonValue>) -> (r: Result<Vec<String>, TimelineError>)
    ensures
        all_strings(names@) ==> (r matches Ok(v) && names_of(v@) == strings_of(names@)),
        !all_strings(names@) ==> r == Err::<Vec<String>, TimelineError>(
            TimelineError::IncorrectValueType("target must be string"),
        ),
{
    let mut out: Vec<String> = Vec::with_capacity(names.len());
    let mut i: usize = 0;
    while i < names.len()
        invariant
            0 <= i <= names@.len(),
            names_of(out@) == strings_of(names@).take(i as int),
            forall|j: int| 0 <= j < i ==> (#[trigger] names@[j]) is String,
        decreases names@.len() - i,
    {
        match &names[i] {
            JsonValue::String(x) => {
                let c = x.clone();
                assert(c@ == x@);
                assert(strings_of(names@)[i as int] == x@);
                let ghost prev = out@;
                out.push(c);
                assert(names_of(out@) =~= names_of(prev).push(x@));
                assert(strings_of(names@).take(i + 1) =~= strings_of(names@).take(i as int).push(x@));
            },
            _ => return Err(TimelineError::IncorrectValueType("target must be string")),
        }
        assert(names_of(out@) =~= strings_of(names@).take(i + 1));
        i = i + 1;
    }
    assert(names_of(out@) =~= strings_of(names@));
    Ok(out)
}

/// Reads the members of a target as `spec_target_header` says.
pub fn parse_target_header(value: &JsonValue) -> (r: Result<TargetParts<'_>, TimelineError>)
    ensures
        match r {
            Ok(parts) => spec_target_header(*value) matches Ok(h) && parts_fit(parts, h),
            Err(e) => spec_target_header(*value) == Err::<TargetHeader, TimelineError>(e),
        },
{
    if let JsonValue::Object(_) = value {
    } else {
        return Err(TimelineError::IncorrectValueType("target must be object"));
    }
    let typ = match value.child("typ") {
        None => return Err(TimelineError::IncorrectValueType("typ not exist")),
        Some(JsonValue::String(t)) => t.as_str(),
        Some(_) => return Err(TimelineError::IncorrectValueType("typ must be string")),
    };
    let target = match value.child("target") {
        None => return Err(TimelineError::IncorrectValueType("target not exist")),
        Some(JsonValue::Array(names)) => match read_names(names) {
            Ok(v) => v,
            Err(e) => return Err(e),
        },
        Some(_) => return Err(TimelineError::IncorrectValueType("target must be string array")),
    };
    let times = match value.child("times") {
        None => return Err(TimelineError::IncorrectValueType("times not exist")),
        Some(t) => match t.as_array_f32() {
            Ok(v) => v,
            Err(e) => return Err(e),
        },
    };
    let seq = match value.child("seq") {
        None => return Err(TimelineError::IncorrectValueType("keyframes not exist")),
        Some(JsonValue::Array(seq)) => seq,
        Some(_) => return Err(TimelineError::IncorrectValueType("keyframes is not array")),
    };
    Ok(TargetParts { typ, target, times, seq })
}

/// `n` marks of `false`.
fn unselected(n: usize) -> (v: Vec<bool>)
    ensures
        v@ == Seq::new(n as nat, |i: int| false),
{
    let mut v: Vec<bool> = Vec::with_capacity(n);
    let mut i: usize = 0;
    while i < n
        invariant
            0 <= i <= n,
            v@ == Seq::new(i as nat, |k: int| false),
        decreases n - i,
    {
        v.push(false);
        assert(v@ =~= Seq::new((i + 1) as nat, |k: int| false));
        i = i + 1;
    }
    v
}

/// The target for the parts read from a target member and the result of
/// reading its keyframes: an unknown type gives `UnknownTargetType`, a
/// failure to read them gives that failure.
pub open spec fn target_result_fits<S>(
    r: Result<TimelineTarget<S>, TimelineError>,
    h: TargetHeader,
    resolved: Option<Result<TimelineUntypedSeq<S>, TimelineError>>,
) -> bool {
    match resolved {
        None => r matches Err(TimelineError::UnknownTargetType(name)) && name@ == h.typ,
        Some(Err(e)) => r == Err::<TimelineTarget<S>, TimelineError>(e),
        Some(Ok(seq)) => r matches Ok(t) && target_fits(t, h) && t.seq == seq,
    }
}

/// `r` is what reading the target member `v` gives: the failure of its
/// header; for a type name that no value type of `R` has,
/// `UnknownTargetType`; the failure of reading its keyframes; otherwise the
/// target that holds what its header gives, with the keyframe values stored
/// by the value type that it names.
pub open spec fn target_outcome<S, R: TimelineImplSets<Storage = S>>(v: JsonValue, r: Result<TimelineTarget<S>, TimelineError>) -> bool {
    match spec_target_header(v) {
        Err(e) => r == Err::<TimelineTarget<S>, TimelineError>(e),
        Ok(h) => match R::spec_resolve(h.typ, h.seq) {
            None => r matches Err(TimelineError::UnknownTargetType(name)) && name@ == h.typ,
            Some(Err(e)) => r == Err::<TimelineTarget<S>, TimelineError>(e),
            Some(Ok(n)) => r matches Ok(t) && {
                &&& target_fits(t, h)
                &&& t.seq.typ@ == h.typ
                &&& t.seq.length == n
                &&& R::stores(t.seq.data, h.typ, h.seq)
            },
        },
    }
}

/// Whether the target member `v` can be read.
pub open spec fn target_reads<S, R: TimelineImplSets<Storage = S>>(v: JsonValue) -> bool {
    spec_target_header(v) matches Ok(h) && R::spec_resolve(h.typ, h.seq) matches Some(Ok(_))
}

impl<S> TimelineTarget<S> {
    /// Builds a target from the parts of its member and the result of
    /// reading its keyframes.
    pub fn from_parts(
        parts: TargetParts<'_>,
        resolved: Option<Result<TimelineUntypedSeq<S>, TimelineError>>,
    ) -> (r: Result<TimelineTarget<S>, TimelineError>)
        ensures
            forall|h: TargetHeader| parts_fit(parts, h) ==> target_result_fits(r, h, resolved),
    {
        match resolved {
            None => Err(TimelineError::UnknownTargetType(parts.typ.to_owned())),
            Some(Err(e)) => Err(e),
            Some(Ok(seq)) => {
                let selected = unselected(parts.times.len());
                Ok(TimelineTarget { target: parts.target, selected, times: parts.times, seq })
            },
        }
    }

    /// Reads a target member: its header as `spec_target_header` says, then
    /// its keyframes as the value type that it names.
    pub fn from<R: TimelineImplSets<Storage = S>>(value: &JsonValue) -> (r: Result<TimelineTarget<S>, TimelineError>)
        ensures
            target_outcome::<S, R>(*value, r),
    {
        let parts = match parse_target_header(value) {
            Ok(p) => p,
            Err(e) => return Err(e),
        };
        let ghost h = spec_target_header(*value)->Ok_0;
        assert(parts_fit(parts, h));
        let resolved = R::try_resolve_keyframes(parts.typ, parts.seq.as_slice());
        TimelineTarget::from_parts(parts, resolved)
    }
}


/// A named animation with its duration and targets.
pub struct TimelineAnimation<S> {
    pub name: String,
    pub duration: u32,
    pub targets: Vec<TimelineTarget<S>>,
}

/// What an animation member holds before its targets are read.
pub struct AnimationHeader {
    pub name: Seq<char>,
    pub duration: u32,
    pub targets: Seq<JsonValue>,
}

/// Reads the members of an animation, in the order in which they are
/// checked: `name` (a string), `duration` (a number) and `targets` (an array).
pub open spec fn spec_animation_header(v: JsonValue) -> Result<AnimationHeader, TimelineError> {
    if !(v is Object) {
        Err(TimelineError::IncorrectValueType("animation is not an object"))
    } else {
        match spec_child(v, "name"@) {
            None => Err(TimelineError::IncorrectValueType("name(in animation) is not exist")),
            Some(JsonValue::String(name)) => match spec_child(v, "duration"@) {
                None => Err(TimelineError::IncorrectValueType("duration(in animation) is not exist")),
                Some(JsonValue::Number(d)) => match spec_child(v, "targets"@) {
                    None => Err(TimelineError::IncorrectValueType("targets(in animation) is not exist")),
                    Some(JsonValue::Array(targets)) => Ok(
                        AnimationHeader { name: name@, duration: d.single, targets: targets@ },
                    ),
                    Some(_) => Err(TimelineError::IncorrectValueType("targets must be array")),
                },
                Some(_) => Err(TimelineError::IncorrectValueType("duration must be number")),
            },
            Some(_) => Err(TimelineError::IncorrectValueType("timeline name must be string")),
        }
    }
}

/// `r` is what reading the animation member `v` gives: the failure of its
/// header; otherwise the animation with each target read from its member in
/// order, or the failure of the first target member that cannot be read.
pub open spec fn animation_outcome<S, R: TimelineImplSets<Storage = S>>(
    v: JsonValue,
    r: Result<TimelineAnimation<S>, TimelineError>,
) -> bool {
    match spec_animation_header(v) {
        Err(e) => r == Err::<TimelineAnimation<S>, TimelineError>(e),
        Ok(h) => match r {
            Ok(a) => {
                &&& a.name@ == h.name
                &&& a.duration == h.duration
                &&& a.targets@.len() == h.targets.len()
                &&& forall|i: int| 0 <= i < h.targets.len() ==> target_outcome::<S, R>(
                    #[trigger] h.targets[i],
                    Ok::<TimelineTarget<S>, TimelineError>(a.targets@[i]),
                )
            },
            Err(e) => exists|k: int| #[trigger] target_failure_at::<S, R>(h.targets, k, e),
        },
    }
}

/// The failure `e` of reading target members in order comes from the member
/// at `k`: the ones before it can be read, and it gives `e`.
pub open spec fn target_failure_at<S, R: TimelineImplSets<Storage = S>>(
    targets: Seq<JsonValue>,
    k: int,
    e: TimelineError,
) -> bool {
    &&& 0 <= k < targets.len()
    &&& forall|j: int| 0 <= j < k ==> target_reads::<S, R>(#[trigger] targets[j])
    &&& target_outcome::<S, R>(targets[k], Err::<TimelineTarget<S>, TimelineError>(e))
}

/// The failure `e` of reading animation members in order comes from the
/// member at `k`: the ones before it can be read, and it gives `e`.
pub open spec fn animation_failure_at<S, R: TimelineImplSets<Storage = S>>(
    values: Seq<JsonValue>,
    k: int,
    e: TimelineError,
) -> bool {
    &&& 0 <= k < values.len()
    &&& forall|j: int| 0 <= j < k ==> animation_reads::<S, R>(#[trigger] values[j])
    &&& animation_outcome::<S, R>(values[k], Err::<TimelineAnimation<S>, TimelineError>(e))
}

/// Whether the animation member `v` can be read: its header and every
/// target member can.
pub open spec fn animation_reads<S, R: TimelineImplSets<Storage = S>>(v: JsonValue) -> bool {
    spec_animation_header(v) matches Ok(h) && forall|i: int| 0 <= i < h.targets.len() ==> target_reads::<S, R>(
        #[trigger] h.targets[i],
    )
}

/// A target member that reads as a target can be read.
proof fn lemma_target_ok_reads<S, R: TimelineImplSets<Storage = S>>(v: JsonValue, t: TimelineTarget<S>)
    requires
        target_outcome::<S, R>(v, Ok::<TimelineTarget<S>, TimelineError>(t)),
    ensures
        target_reads::<S, R>(v),
{
}

impl<S> TimelineAnimation<S> {
    /// Reads an animation member: its header as `spec_animation_header`
    /// says, then each target in order, stopping at the first failure.
    pub fn load_animation<R: TimelineImplSets<Storage = S>>(value: &JsonValue) -> (r: Result<TimelineAnimation<S>, TimelineError>)
        ensures
            animation_outcome::<S, R>(*value, r),
            animation_reads::<S, R>(*value) <==> r is Ok,
    {
        if let JsonValue::Object(_) = value {
        } else {
            return Err(TimelineError::IncorrectValueType("animation is not an object"));
        }
        let name = match value.child("name") {
            None => return Err(TimelineError::IncorrectValueType("name(in animation) is not exist")),
            Some(JsonValue::String(n)) => n.clone(),
            Some(_) => return Err(TimelineError::IncorrectValueType("timeline name must be string")),
        };
        let duration = match value.child("duration") {
            None => return Err(TimelineError::IncorrectValueType("duration(in animation) is not exist")),
            Some(JsonValue::Number(d)) => d.single,
            Some(_) => return Err(TimelineError::IncorrectValueType("duration must be number")),
        };
        let targets_value = match value.child("targets") {
            None => return Err(TimelineError::IncorrectValueType("targets(in animation) is not exist")),
            Some(JsonValue::Array(t)) => t,
            Some(_) => return Err(TimelineError::IncorrectValueType("targets must be array")),
        };
        let ghost h = spec_animation_header(*value)->Ok_0;
        assert(spec_animation_header(*value) == Ok::<AnimationHeader, TimelineError>(h));
        assert(h.targets == targets_value@);
        let mut targets: Vec<TimelineTarget<S>> = Vec::with_capacity(targets_value.len());
        let mut i: usize = 0;
        while i < targets_value.len()
            invariant
                0 <= i <= targets_value@.len(),
                h.targets == targets_value@,
                spec_animation_header(*value) == Ok::<AnimationHeader, TimelineError>(h),
                targets@.len() == i,
                forall|j: int| 0 <= j < i ==> target_outcome::<S, R>(
                    #[trigger] targets_value@[j],
                    Ok::<TimelineTarget<S>, TimelineError>(targets@[j]),
                ),
            decreases targets_value@.len() - i,
        {
            match TimelineTarget::<S>::from::<R>(&targets_value[i]) {
                Ok(t) => targets.push(t),
                Err(e) => {
                    proof {
                        assert forall|j: int| 0 <= j < i implies target_reads::<S, R>(#[trigger] h.targets[j]) by {
                            lemma_target_ok_reads::<S, R>(targets_value@[j], targets@[j]);
                        }
                        assert(target_outcome::<S, R>(h.targets[i as int], Err::<TimelineTarget<S>, TimelineError>(e)));
                        assert(!target_reads::<S, R>(h.targets[i as int]));
                        assert(target_failure_at::<S, R>(h.targets, i as int, e));
                        assert(animation_outcome::<S, R>(*value, Err::<TimelineAnimation<S>, TimelineError>(e))) by {
                            assert(target_failure_at::<S, R>(spec_animation_header(*value)->Ok_0.targets, i as int, e));
                        }
                        assert(!animation_reads::<S, R>(*value));
                    }
                    return Err(e);
                },
            }
            i = i + 1;
        }
        let anim = TimelineAnimation { name, duration, targets };
        proof {
            assert forall|j: int| 0 <= j < h.targets.len() implies target_reads::<S, R>(#[trigger] h.targets[j]) by {
                lemma_target_ok_reads::<S, R>(targets_value@[j], anim.targets@[j]);
            }
        }
        Ok(anim)
    }

    /// Reads a document: an array of animation members, each read in order
    /// by `load_animation`, stopping at the first failure.
    pub fn load_animations<R: TimelineImplSets<Storage = S>>(value: &JsonValue) -> (r: Result<Vec<TimelineAnimation<S>>, TimelineError>)
        ensures
            match *value {
                JsonValue::Array(a) => match r {
                    Ok(v) => v@.len() == a@.len() && forall|i: int| 0 <= i < a@.len() ==> animation_outcome::<S, R>(
                        #[trigger] a@[i],
                        Ok::<TimelineAnimation<S>, TimelineError>(v@[i]),
                    ),
                    Err(e) => exists|k: int| #[trigger] animation_failure_at::<S, R>(a@, k, e),
                },
                _ => r == Err::<Vec<TimelineAnimation<S>>, TimelineError>(
                    TimelineError::IncorrectValueType("timeline must be array"),
                ),
            },
            *value matches JsonValue::Array(a) ==> ((forall|i: int| 0 <= i < a@.len() ==> animation_reads::<S, R>(
                #[trigger] a@[i],
            )) <==> r is Ok),
    {
        let values = match value {
            JsonValue::Array(a) => a,
            _ => return Err(TimelineError::IncorrectValueType("timeline must be array")),
        };
        let mut anims: Vec<TimelineAnimation<S>> = Vec::with_capacity(values.len());
        let mut i: usize = 0;
        while i < values.len()
            invariant
                0 <= i <= values@.len(),
                *value == JsonValue::Array(*values),
                anims@.len() == i,
                forall|j: int| 0 <= j < i ==> animation_outcome::<S, R>(
                    #[trigger] values@[j],
                    Ok::<TimelineAnimation<S>, TimelineError>(anims@[j]),
                ),
                forall|j: int| 0 <= j < i ==> animation_reads::<S, R>(#[trigger] values@[j]),
            decreases values@.len() - i,
        {
            match TimelineAnimation::<S>::load_animation::<R>(&values[i]) {
                Ok(a) => anims.push(a),
                Err(e) => {
                    proof {
                        assert(!animation_reads::<S, R>(values@[i as int]));
                        assert(animation_failure_at::<S, R>(values@, i as int, e));
                        assert((*value)->Array_0@ == values@);
                        assert(animation_failure_at::<S, R>((*value)->Array_0@, i as int, e));
                        assert(!animation_reads::<S, R>((*value)->Array_0@[i as int]));
                    }
                    return Err(e);
                },
            }
            i = i + 1;
        }
        Ok(anims)
    }
}

} // verus!
