use bevy_timeline::data::{parse_target_header, TimelineAnimation, TimelineImplSets, TimelineTarget, TimelineUntypedSeq};
use bevy_timeline::error::{JsonFailure, TimelineError};
use bevy_timeline::json::{JsonNumber, JsonValue, NumberRepr};
use bevy_timeline::keyframe::{AnimatableValue, TimelineKeyframe, TimelineUntypedTarget};
use bevy_timeline::value::{resolve_values, ListValues, Rotation, Scale, Translation};

fn num(f: f32) -> JsonValue {
    JsonValue::Number(JsonNumber { repr: NumberRepr::Float((f as f64).to_bits()), single: f.to_bits() })
}

fn integer(i: u64) -> JsonValue {
    JsonValue::Number(JsonNumber { repr: NumberRepr::PosInt(i), single: (i as f32).to_bits() })
}

fn text(s: &str) -> JsonValue {
    JsonValue::String(s.to_string())
}

fn arr(v: Vec<JsonValue>) -> JsonValue {
    JsonValue::Array(v)
}

fn obj(members: Vec<(&str, JsonValue)>) -> JsonValue {
    JsonValue::Object(members.into_iter().map(|(k, v)| (k.to_string(), v)).collect())
}

/// The value types of the tests: "Level" keyframes are numbers.
type Levels = (Level, ());

/// How the keyframe values of `Levels` are stored.
type LevelStore = ListValues<Level, ()>;

/// The numbers that level keyframes stored as `Levels` hold.
fn levels(data: &LevelStore) -> Vec<u32> {
    match data {
        ListValues::First(v) => v.iter().map(|l| l.0).collect(),
        ListValues::Rest(()) => Vec::new(),
    }
}

fn target(typ: &str, names: &[&str], times: &[f32], seq: Vec<JsonValue>) -> JsonValue {
    obj(vec![
        ("typ", text(typ)),
        ("target", arr(names.iter().map(|n| text(n)).collect())),
        ("times", arr(times.iter().map(|t| num(*t)).collect())),
        ("seq", arr(seq)),
    ])
}

fn animation(name: &str, duration: f32, targets: Vec<JsonValue>) -> JsonValue {
    obj(vec![("name", text(name)), ("duration", num(duration)), ("targets", arr(targets))])
}

#[test]
fn loads_a_document() {
    let doc = arr(vec![
        animation("wave", 2.0, vec![target("Level", &["arm", "hand"], &[0.0, 1.0], vec![num(0.5), num(0.75)])]),
        animation("idle", 1.0, vec![]),
    ]);
    let anims = TimelineAnimation::load_animations::<Levels>(&doc).unwrap();
    assert_eq!(anims.len(), 2);
    assert_eq!(anims[0].name, "wave");
    assert_eq!(anims[0].duration, 2.0f32.to_bits());
    assert_eq!(anims[1].name, "idle");
    assert!(anims[1].targets.is_empty());
    let t = &anims[0].targets[0];
    assert_eq!(t.target, vec!["arm".to_string(), "hand".to_string()]);
    assert_eq!(t.get_times(), &[0.0f32.to_bits(), 1.0f32.to_bits()][..]);
    assert_eq!(t.selected, vec![false, false]);
    assert_eq!(t.typ(), "Level");
    assert_eq!(levels(t.get_typed("Level").unwrap()), vec![0.5f32.to_bits(), 0.75f32.to_bits()]);
    assert!(matches!(
        t.get_typed("Scale"),
        Err(TimelineError::TypeNotMatch { request: "Scale", actual: "Level" })
    ));
}

#[test]
fn integer_durations_read_as_numbers() {
    let a = animation("x", 0.0, vec![]);
    let a = match a {
        JsonValue::Object(mut m) => {
            m[1].1 = integer(3);
            JsonValue::Object(m)
        }
        other => other,
    };
    let anim = TimelineAnimation::<LevelStore>::load_animation::<Levels>(&a).unwrap();
    assert_eq!(anim.duration, 3.0f32.to_bits());
}

#[test]
fn document_must_be_an_array() {
    let doc = obj(vec![]);
    assert!(matches!(
        TimelineAnimation::<LevelStore>::load_animations::<Levels>(&doc),
        Err(TimelineError::IncorrectValueType("timeline must be array"))
    ));
}

fn animation_error(v: &JsonValue) -> TimelineError {
    match TimelineAnimation::<LevelStore>::load_animation::<Levels>(v) {
        Err(e) => e,
        Ok(_) => panic!("loaded"),
    }
}

#[test]
fn animation_member_errors() {
    assert!(matches!(
        animation_error(&JsonValue::Null),
        TimelineError::IncorrectValueType("animation is not an object")
    ));
    assert!(matches!(
        animation_error(&obj(vec![])),
        TimelineError::IncorrectValueType("name(in animation) is not exist")
    ));
    assert!(matches!(
        animation_error(&obj(vec![("name", num(1.0))])),
        TimelineError::IncorrectValueType("timeline name must be string")
    ));
    assert!(matches!(
        animation_error(&obj(vec![("name", text("a"))])),
        TimelineError::IncorrectValueType("duration(in animation) is not exist")
    ));
    assert!(matches!(
        animation_error(&obj(vec![("name", text("a")), ("duration", text("1"))])),
        TimelineError::IncorrectValueType("duration must be number")
    ));
    assert!(matches!(
        animation_error(&obj(vec![("name", text("a")), ("duration", num(1.0))])),
        TimelineError::IncorrectValueType("targets(in animation) is not exist")
    ));
    assert!(matches!(
        animation_error(&obj(vec![("name", text("a")), ("duration", num(1.0)), ("targets", num(1.0))])),
        TimelineError::IncorrectValueType("targets must be array")
    ));
}

fn target_error(v: &JsonValue) -> TimelineError {
    match TimelineTarget::<LevelStore>::from::<Levels>(v) {
        Err(e) => e,
        Ok(_) => panic!("loaded"),
    }
}

#[test]
fn target_member_errors() {
    assert!(matches!(target_error(&text("x")), TimelineError::IncorrectValueType("target must be object")));
    assert!(matches!(target_error(&obj(vec![])), TimelineError::IncorrectValueType("typ not exist")));
    assert!(matches!(
        target_error(&obj(vec![("typ", num(1.0))])),
        TimelineError::IncorrectValueType("typ must be string")
    ));
    assert!(matches!(
        target_error(&obj(vec![("typ", text("Level"))])),
        TimelineError::IncorrectValueType("target not exist")
    ));
    assert!(matches!(
        target_error(&obj(vec![("typ", text("Level")), ("target", text("a"))])),
        TimelineError::IncorrectValueType("target must be string array")
    ));
    assert!(matches!(
        target_error(&obj(vec![("typ", text("Level")), ("target", arr(vec![num(1.0)]))])),
        TimelineError::IncorrectValueType("target must be string")
    ));
    assert!(matches!(
        target_error(&obj(vec![("typ", text("Level")), ("target", arr(vec![]))])),
        TimelineError::IncorrectValueType("times not exist")
    ));
    assert!(matches!(
        target_error(&obj(vec![("typ", text("Level")), ("target", arr(vec![])), ("times", num(1.0))])),
        TimelineError::IncorrectValueType("not array")
    ));
    assert!(matches!(
        target_error(&obj(vec![("typ", text("Level")), ("target", arr(vec![])), ("times", arr(vec![text("1")]))])),
        TimelineError::IncorrectValueType("not a number")
    ));
    assert!(matches!(
        target_error(&obj(vec![("typ", text("Level")), ("target", arr(vec![])), ("times", arr(vec![]))])),
        TimelineError::IncorrectValueType("keyframes not exist")
    ));
    assert!(matches!(
        target_error(&obj(vec![
            ("typ", text("Level")),
            ("target", arr(vec![])),
            ("times", arr(vec![])),
            ("seq", num(1.0))
        ])),
        TimelineError::IncorrectValueType("keyframes is not array")
    ));
    match target_error(&target("Colour", &[], &[], vec![])) {
        TimelineError::UnknownTargetType(name) => assert_eq!(name, "Colour"),
        other => panic!("{:?}", other),
    }
    assert!(matches!(
        target_error(&target("Level", &[], &[0.0], vec![JsonValue::Null])),
        TimelineError::IncorrectValueType("not a number")
    ));
}

#[test]
fn a_failing_target_fails_the_animation() {
    let anim = animation("a", 1.0, vec![target("Level", &[], &[], vec![]), target("Colour", &[], &[], vec![])]);
    assert!(matches!(animation_error(&anim), TimelineError::UnknownTargetType(_)));
    let doc = arr(vec![animation("ok", 1.0, vec![]), anim, JsonValue::Null]);
    assert!(matches!(
        TimelineAnimation::<LevelStore>::load_animations::<Levels>(&doc),
        Err(TimelineError::UnknownTargetType(_))
    ));
}

#[test]
fn target_header_parts() {
    let v = target("Level", &["a"], &[0.5], vec![num(1.0)]);
    let parts = parse_target_header(&v).ok().unwrap();
    assert_eq!(parts.typ, "Level");
    assert_eq!(parts.target, vec!["a".to_string()]);
    assert_eq!(parts.times, vec![0.5f32.to_bits()]);
    assert_eq!(parts.seq.len(), 1);
}

#[test]
fn first_member_with_a_name_counts() {
    let v = obj(vec![("name", text("first")), ("name", text("second")), ("duration", num(1.0)), ("targets", arr(vec![]))]);
    let a = TimelineAnimation::<LevelStore>::load_animation::<Levels>(&v).unwrap();
    assert_eq!(a.name, "first");
}

#[test]
fn get_times_with_selected_changes_both() {
    let v = target("Level", &[], &[0.0, 1.0], vec![num(0.0), num(1.0)]);
    let mut t = TimelineTarget::<LevelStore>::from::<Levels>(&v).unwrap();
    {
        let (times, selected) = t.get_times_with_selected();
        times[1] = 2.0f32.to_bits();
        selected[0] = true;
    }
    assert_eq!(t.times, vec![0.0f32.to_bits(), 2.0f32.to_bits()]);
    assert_eq!(t.selected, vec![true, false]);
}

struct Level(u32);

impl AnimatableValue for Level {
    fn from_value(value: &JsonValue) -> Result<Self, TimelineError> {
        value.as_f32().map(Level)
    }

    fn typ() -> &'static str {
        "Level"
    }
}

#[test]
fn keyframe_member() {
    let k = TimelineKeyframe::<Level>::from(&obj(vec![("time", num(0.5)), ("data", num(2.0))])).ok().unwrap();
    assert_eq!(k.time, 0.5f32.to_bits());
    assert_eq!(k.data.0, 2.0f32.to_bits());
    assert!(matches!(
        TimelineKeyframe::<Level>::from(&arr(vec![])),
        Err(TimelineError::IncorrectValueType("keyframe is not object"))
    ));
}

#[test]
fn untyped_target_member() {
    let v = obj(vec![
        ("target", arr(vec![])),
        ("keyframes", arr(vec![obj(vec![("time", num(0.0)), ("data", num(1.0))])])),
    ]);
    let t = TimelineUntypedTarget::<()>::from::<Level>(&v).ok().unwrap();
    assert_eq!(t.typ, "Level");
    assert!(t.target.is_empty());
    assert_eq!(t.length, 1);
    assert_eq!(t.data[0].data.0, 1.0f32.to_bits());
    assert!(t.get_typed("Level").is_ok());
    assert!(matches!(t.get_typed("Scale"), Err(TimelineError::TypeNotMatch { request: "Scale", actual: "Level" })));
    let (replaced, old) = t.replace_data(5u8);
    assert_eq!(replaced.data, 5);
    assert_eq!(replaced.length, 1);
    assert_eq!(old.len(), 1);
    let named = obj(vec![("target", arr(vec![text("arm"), text("hand")])), ("keyframes", arr(vec![]))]);
    let t = TimelineUntypedTarget::<()>::from::<Level>(&named).ok().unwrap();
    assert_eq!(t.target, vec!["arm".to_string(), "hand".to_string()]);
    assert_eq!(t.length, 0);
}

fn err(v: &JsonValue) -> TimelineError {
    match TimelineUntypedTarget::<()>::from::<Level>(v) {
        Err(e) => e,
        Ok(_) => panic!("loaded"),
    }
}

#[test]
fn untyped_target_errors() {
    assert!(matches!(err(&JsonValue::Null), TimelineError::IncorrectValueType("target must be object")));
    assert!(matches!(err(&obj(vec![])), TimelineError::IncorrectValueType("target not exist")));
    assert!(matches!(
        err(&obj(vec![("target", text("a"))])),
        TimelineError::IncorrectValueType("target must be string array")
    ));
    assert!(matches!(
        err(&obj(vec![("target", arr(vec![text("a"), num(1.0)])), ("keyframes", arr(vec![]))])),
        TimelineError::IncorrectValueType("target must be string")
    ));
    assert!(matches!(
        err(&obj(vec![("target", arr(vec![]))])),
        TimelineError::IncorrectValueType("keyframes not exist")
    ));
    assert!(matches!(
        err(&obj(vec![("target", arr(vec![])), ("keyframes", num(1.0))])),
        TimelineError::IncorrectValueType("keyframes is not array")
    ));
}

#[test]
fn untyped_seq_get_typed() {
    let seq = TimelineUntypedSeq { typ: "Scale", length: 2, data: vec![1u8, 2u8] };
    assert_eq!(seq.get_typed("Scale").unwrap(), &vec![1u8, 2u8]);
    assert!(matches!(seq.get_typed("Level"), Err(TimelineError::TypeNotMatch { request: "Level", actual: "Scale" })));
}

#[test]
fn json_number_getters() {
    let v = obj(vec![
        ("scale", num(1.5)),
        ("position", arr(vec![num(1.0), num(2.0), num(3.0)])),
        ("name", text("n")),
    ]);
    assert_eq!(v.get_f32("scale").unwrap(), 1.5f32.to_bits());
    assert!(matches!(v.get_f32("speed"), Err(TimelineError::NotExistItem("speed"))));
    assert!(matches!(v.get_f32("name"), Err(TimelineError::IncorrectValueType("not a number"))));
    assert_eq!(
        v.get_fixed_array_f32("position", 3).unwrap(),
        vec![1.0f32.to_bits(), 2.0f32.to_bits(), 3.0f32.to_bits()]
    );
    assert!(matches!(
        v.get_fixed_array_f32("position", 4),
        Err(TimelineError::InvalidLength { required: 4, actual: 3 })
    ));
    assert!(matches!(v.get_fixed_array_f32("scale", 1), Err(TimelineError::IncorrectValueType("not array"))));
    assert_eq!(v.get_array_f32("position").unwrap().len(), 3);
    assert!(matches!(v.get_array_f32("none"), Err(TimelineError::NotExistItem("none"))));
    assert!(v.child("name").is_some());
    assert!(v.child("other").is_none());
    assert!(text("x").child("name").is_none());
    assert_eq!(integer(2).as_f32().unwrap(), 2.0f32.to_bits());
    assert_eq!(arr(vec![]).as_array_f32().unwrap(), Vec::<u32>::new());
}

#[test]
fn error_variants_carry_their_messages() {
    let io = TimelineError::Io("disk".to_string());
    let json = TimelineError::JsonError(JsonFailure::Message("eof".to_string()));
    let other = TimelineError::UnknownError("x".to_string());
    assert!(matches!(io, TimelineError::Io(ref m) if m == "disk"));
    assert!(matches!(json, TimelineError::JsonError(JsonFailure::Message(ref m)) if m == "eof"));
    assert!(matches!(other, TimelineError::UnknownError(ref m) if m == "x"));
}

#[test]
fn transform_values_from_arrays() {
    let s = Scale::from_value(&arr(vec![num(1.0), num(2.0), integer(3)])).ok().unwrap();
    assert_eq!(s, Scale { x: 1.0f32.to_bits(), y: 2.0f32.to_bits(), z: 3.0f32.to_bits() });
    let r = Rotation::from_value(&arr(vec![num(0.0), num(0.0), num(0.0), num(1.0)])).ok().unwrap();
    assert_eq!(r.w, 1.0f32.to_bits());
    let t = Translation::from_value(&arr(vec![num(-1.0), num(0.5), num(0.0)])).ok().unwrap();
    assert_eq!(t.x, (-1.0f32).to_bits());
    assert_eq!(Scale::typ(), "Scale");
    assert_eq!(Rotation::typ(), "Rotation");
    assert_eq!(Translation::typ(), "Translation");
}

#[test]
fn transform_value_errors() {
    assert!(matches!(
        Scale::from_value(&num(1.0)),
        Err(TimelineError::JsonError(JsonFailure::Shape("invalid value for `Scale`, expected a sequence of 3 f32")))
    ));
    assert!(matches!(
        Scale::from_value(&arr(vec![num(1.0), num(2.0)])),
        Err(TimelineError::JsonError(JsonFailure::Shape("invalid value for `Scale`, expected a sequence of 3 f32")))
    ));
    assert!(matches!(
        Scale::from_value(&arr(vec![num(1.0), text("2"), JsonValue::Null])),
        Err(TimelineError::JsonError(JsonFailure::Shape("invalid type at `Scale`[1], expected f32")))
    ));
    assert!(matches!(
        Rotation::from_value(&arr(vec![num(1.0), num(2.0), num(3.0)])),
        Err(TimelineError::JsonError(JsonFailure::Shape("invalid value for `Rotation`, expected a sequence of 4 f32")))
    ));
    assert!(matches!(
        Rotation::from_value(&arr(vec![num(1.0), num(2.0), num(3.0), JsonValue::Bool(false)])),
        Err(TimelineError::JsonError(JsonFailure::Shape("invalid type at `Rotation`[3], expected f32")))
    ));
    assert!(matches!(
        Translation::from_value(&arr(vec![JsonValue::Null, num(2.0), num(3.0)])),
        Err(TimelineError::JsonError(JsonFailure::Shape("invalid type at `Translation`[0], expected f32")))
    ));
}

#[test]
fn values_resolve_only_for_their_type() {
    let values = vec![arr(vec![num(1.0), num(1.0), num(1.0)]), arr(vec![num(2.0), num(2.0), num(2.0)])];
    assert!(resolve_values::<Scale>("Rotation", &values).is_none());
    let seq = resolve_values::<Scale>("Scale", &values).unwrap().ok().unwrap();
    assert_eq!(seq.typ, "Scale");
    assert_eq!(seq.length, 2);
    assert_eq!(seq.data[1].y, 2.0f32.to_bits());
    let bad = vec![arr(vec![num(1.0), num(1.0), num(1.0)]), num(2.0), JsonValue::Null];
    assert!(matches!(
        resolve_values::<Scale>("Scale", &bad),
        Some(Err(TimelineError::JsonError(JsonFailure::Shape("invalid value for `Scale`, expected a sequence of 3 f32"))))
    ));
}

type Transforms = (Scale, (Rotation, (Translation, ())));

#[test]
fn value_lists_read_by_the_named_type() {
    let unit = || arr(vec![num(1.0), num(1.0), num(1.0)]);
    let doc = arr(vec![animation(
        "move",
        1.0,
        vec![
            target("Rotation", &["arm"], &[0.0], vec![arr(vec![num(0.0), num(0.0), num(0.0), num(1.0)])]),
            target("Translation", &["arm"], &[0.0, 1.0], vec![unit(), unit()]),
            target("Scale", &[], &[0.0], vec![unit()]),
        ],
    )]);
    let anims = TimelineAnimation::load_animations::<Transforms>(&doc).ok().unwrap();
    let targets = &anims[0].targets;
    assert_eq!(targets[0].typ(), "Rotation");
    match &targets[0].seq.data {
        ListValues::Rest(ListValues::First(v)) => assert_eq!(v[0].w, 1.0f32.to_bits()),
        _ => panic!("rotation values are stored second"),
    }
    assert_eq!(targets[1].typ(), "Translation");
    assert_eq!(targets[1].seq.length, 2);
    assert!(matches!(&targets[1].seq.data, ListValues::Rest(ListValues::Rest(ListValues::First(v))) if v.len() == 2));
    assert_eq!(targets[2].typ(), "Scale");
    assert!(matches!(&targets[2].seq.data, ListValues::First(v) if v[0].x == 1.0f32.to_bits()));
}

#[test]
fn value_lists_fail_by_name_and_by_value() {
    let unknown = target("Color", &[], &[0.0], vec![]);
    match TimelineTarget::from::<Transforms>(&unknown) {
        Err(TimelineError::UnknownTargetType(name)) => assert_eq!(name, "Color"),
        _ => panic!("an unknown type name is refused"),
    }
    let bad = target("Scale", &[], &[0.0], vec![JsonValue::Null]);
    assert!(matches!(
        TimelineTarget::from::<Transforms>(&bad),
        Err(TimelineError::JsonError(JsonFailure::Shape("invalid value for `Scale`, expected a sequence of 3 f32")))
    ));
    assert!(<() as TimelineImplSets>::try_resolve_keyframes("Scale", &[]).is_none());
}
