use bevy_timeline::error::TimelineError;
use bevy_timeline::json::{JsonNumber, JsonValue, NumberRepr};
use bevy_timeline::keyframe::AnimatableValue;
use bevy_timeline::time::{search_time, time_eq, time_lt, time_order_key, ZERO_TIME};
use bevy_timeline::timeline::{changed_keyframe, keyframe_pair_indices, plan_keyframe_step, Keyframe, KeyframeStep, Timeline};

struct Frames {
    frames: Vec<f32>,
}

impl Frames {
    fn find(&self, time: f32) -> Option<(f32, f32)> {
        let frames = &self.frames;

        if frames.len() < 2 {
            return None;
        }

        let bits: Vec<u32> = frames.iter().map(|f| f.to_bits()).collect();
        match search_time(&bits, time.to_bits()) {
            Ok(i) => {
                if i + 1 < frames.len() && i > 0 {
                    Some((frames[i], frames[i + 1]))
                } else {
                    None
                }
            }
            Err(i) => {
                if i == 0 || i >= frames.len() {
                    None
                } else {
                    Some((frames[i - 1], frames[i]))
                }
            }
        }
    }
}

#[test]
fn binary_search() {
    let frames = Frames {
        frames: vec![3.0, 6.0, 7.0, 9.0],
    };

    let result = frames.find(5.5);
    println!("{:?}", result);
    assert_eq!(result, Some((3.0, 6.0)));

    let result = frames.find(7.0);
    println!("{:?}", result);
    assert_eq!(result, Some((7.0, 9.0)));

    let result = frames.find(2.0);
    println!("{:?}", result);
    assert_eq!(result, None);

    let result = frames.find(10.0);
    println!("{:?}", result);
    assert_eq!(result, None);
}

fn bits(v: &[f32]) -> Vec<u32> {
    v.iter().map(|f| f.to_bits()).collect()
}

#[test]
fn order_key_orders_as_floats() {
    let values = [-1.0e30f32, -3.5, -1.0, -0.0, 0.0, 1.0e-40, 0.25, 1.0, 7.5, 1.0e30, f32::INFINITY, f32::NEG_INFINITY];
    for a in values.iter() {
        for b in values.iter() {
            assert_eq!(time_lt(a.to_bits(), b.to_bits()), a < b, "{} < {}", a, b);
            assert_eq!(time_eq(a.to_bits(), b.to_bits()), a == b, "{} == {}", a, b);
        }
    }
}

#[test]
fn zeros_are_the_same_time() {
    assert_eq!(ZERO_TIME, 0.0f32.to_bits());
    assert!(time_eq((-0.0f32).to_bits(), 0.0f32.to_bits()));
    assert_eq!(time_order_key((-0.0f32).to_bits()), 0);
    assert_eq!(time_order_key(2.0f32.to_bits()), 2.0f32.to_bits() as i64);
    assert_eq!(time_order_key((-2.0f32).to_bits()), -(2.0f32.to_bits() as i64));
}

#[test]
fn search_time_results() {
    let times = bits(&[3.0, 6.0, 7.0, 9.0]);
    assert_eq!(search_time(&times, 7.0f32.to_bits()), Ok(2));
    assert_eq!(search_time(&times, 3.0f32.to_bits()), Ok(0));
    assert_eq!(search_time(&times, 5.5f32.to_bits()), Err(1));
    assert_eq!(search_time(&times, 2.0f32.to_bits()), Err(0));
    assert_eq!(search_time(&times, 10.0f32.to_bits()), Err(4));
    assert_eq!(search_time(&[], 1.0f32.to_bits()), Err(0));
    // among equal times the first one is found
    let repeated = bits(&[1.0, 2.0, 2.0, 2.0, 3.0]);
    assert_eq!(search_time(&repeated, 2.0f32.to_bits()), Ok(1));
    // negative times are ordered as numbers
    let negative = bits(&[-4.0, -2.0, 0.0, 2.0]);
    assert_eq!(search_time(&negative, (-3.0f32).to_bits()), Err(1));
    assert_eq!(search_time(&negative, (-0.0f32).to_bits()), Ok(2));
}

#[test]
fn keyframe_pairs_bracket_the_time() {
    let times = bits(&[3.0, 6.0, 7.0, 9.0]);
    assert_eq!(keyframe_pair_indices(&times, 5.5f32.to_bits()), (Some(0), Some(1)));
    assert_eq!(keyframe_pair_indices(&times, 7.0f32.to_bits()), (Some(1), Some(2)));
    assert_eq!(keyframe_pair_indices(&times, 3.0f32.to_bits()), (None, Some(0)));
    assert_eq!(keyframe_pair_indices(&times, 1.0f32.to_bits()), (None, Some(0)));
    assert_eq!(keyframe_pair_indices(&times, 9.5f32.to_bits()), (Some(3), None));
    assert_eq!(keyframe_pair_indices(&[], 1.0f32.to_bits()), (None, None));
}

#[test]
fn plan_holds_the_last_keyframe() {
    let times = bits(&[0.0, 1.0, 2.0]);
    assert_eq!(plan_keyframe_step(&times, 0.5f32.to_bits()), KeyframeStep::Blend(0, 1));
    assert_eq!(plan_keyframe_step(&times, 2.0f32.to_bits()), KeyframeStep::Blend(1, 2));
    assert_eq!(plan_keyframe_step(&times, 3.0f32.to_bits()), KeyframeStep::Hold(2));
    assert_eq!(plan_keyframe_step(&times, 0.0f32.to_bits()), KeyframeStep::Idle);
    assert_eq!(plan_keyframe_step(&times, (-1.0f32).to_bits()), KeyframeStep::Idle);
    assert_eq!(plan_keyframe_step(&[], 1.0f32.to_bits()), KeyframeStep::Idle);
}

fn timeline() -> Timeline<u8> {
    let keyframes = vec![
        Keyframe::new(1.0f32.to_bits(), 10u8),
        Keyframe::new(2.0f32.to_bits(), 20u8),
        Keyframe::new(4.0f32.to_bits(), 40u8),
    ];
    Timeline::new("walk".to_string(), 4.0f32.to_bits(), keyframes)
}

#[test]
fn find_keyframe_pair_values() {
    let t = timeline();
    let (b, n) = t.find_keyframe_pair(3.0f32.to_bits());
    assert_eq!(b.map(|k| k.value), Some(20));
    assert_eq!(n.map(|k| k.value), Some(40));
    let (b, n) = t.find_keyframe_pair(0.5f32.to_bits());
    assert!(b.is_none());
    assert_eq!(n.map(|k| k.value), Some(10));
    let (b, n) = t.find_keyframe_pair(5.0f32.to_bits());
    assert_eq!(b.map(|k| k.value), Some(40));
    assert!(n.is_none());
    let empty: Timeline<u8> = Timeline::new("none".to_string(), 0, Vec::new());
    let (b, n) = empty.find_keyframe_pair(1.0f32.to_bits());
    assert!(b.is_none() && n.is_none());
}

#[test]
fn interpolation_stops_at_the_ends() {
    let t = timeline();
    assert_eq!(t.interpolation_step(1.5f32.to_bits()), KeyframeStep::Blend(0, 1));
    assert_eq!(t.interpolation_step(4.0f32.to_bits()), KeyframeStep::Blend(1, 2));
    assert_eq!(t.interpolation_step(4.5f32.to_bits()), KeyframeStep::Idle);
    assert_eq!(t.interpolation_step(0.5f32.to_bits()), KeyframeStep::Idle);
    let empty: Timeline<u8> = Timeline::new("none".to_string(), 0, Vec::new());
    assert_eq!(empty.interpolation_step(0.5f32.to_bits()), KeyframeStep::Idle);
}

struct Level(u32);

impl AnimatableValue for Level {
    fn from_value(value: &JsonValue) -> Result<Self, TimelineError> {
        value.as_f32().map(Level)
    }

    fn typ() -> &'static str {
        "Level"
    }
}

fn num(f: f32) -> JsonValue {
    JsonValue::Number(JsonNumber { repr: NumberRepr::Float((f as f64).to_bits()), single: f.to_bits() })
}

fn obj(members: Vec<(&str, JsonValue)>) -> JsonValue {
    JsonValue::Object(members.into_iter().map(|(k, v)| (k.to_string(), v)).collect())
}

#[test]
fn load_frames_in_order() {
    let values = vec![
        obj(vec![("time", num(0.0)), ("data", num(1.5))]),
        obj(vec![("time", num(2.0)), ("data", num(3.0))]),
    ];
    let frames = Keyframe::<Level>::load_frames(&values).unwrap();
    assert_eq!(frames.len(), 2);
    assert_eq!(frames[1].time, 2.0f32.to_bits());
    assert_eq!(frames[1].value.0, 3.0f32.to_bits());
    assert_eq!(frames[0].value.0, 1.5f32.to_bits());
}

#[test]
fn load_frame_errors() {
    let not_object = JsonValue::Null;
    assert!(matches!(
        Keyframe::<Level>::load_frame(&not_object),
        Err(TimelineError::IncorrectValueType("keyframe is not object"))
    ));
    let no_time = obj(vec![("data", num(1.0))]);
    assert!(matches!(
        Keyframe::<Level>::load_frame(&no_time),
        Err(TimelineError::IncorrectValueType("time(in keyframe) is not exist"))
    ));
    let bad_time = obj(vec![("time", JsonValue::Bool(true)), ("data", num(1.0))]);
    assert!(matches!(
        Keyframe::<Level>::load_frame(&bad_time),
        Err(TimelineError::IncorrectValueType("time(in keyframe) is not number"))
    ));
    let no_data = obj(vec![("time", num(1.0))]);
    assert!(matches!(
        Keyframe::<Level>::load_frame(&no_data),
        Err(TimelineError::IncorrectValueType("data(in keyframe) is not exist"))
    ));
    let bad_data = obj(vec![("time", num(1.0)), ("data", JsonValue::Null)]);
    assert!(matches!(
        Keyframe::<Level>::load_frame(&bad_data),
        Err(TimelineError::IncorrectValueType("not a number"))
    ));
    // the first keyframe that fails stops the list
    let values = vec![obj(vec![("time", num(0.0)), ("data", num(1.0))]), no_time, bad_time];
    assert!(matches!(
        Keyframe::<Level>::load_frames(&values),
        Err(TimelineError::IncorrectValueType("time(in keyframe) is not exist"))
    ));
}

#[test]
fn changed_keyframe_reports_a_new_keyframe_in_effect() {
    let times = [0.0f32.to_bits(), 1.0f32.to_bits(), 2.0f32.to_bits()];
    // between 0.5 and 0.75 the first keyframe stays in effect
    assert_eq!(changed_keyframe(&times, 0.5f32.to_bits(), 0.75f32.to_bits()), None);
    // from 0.5 to 1.5 the second keyframe comes into effect
    assert_eq!(changed_keyframe(&times, 0.5f32.to_bits(), 1.5f32.to_bits()), Some(1));
    // past the end the last keyframe is in effect
    assert_eq!(changed_keyframe(&times, 1.5f32.to_bits(), 3.0f32.to_bits()), Some(2));
    // going back to the start, there is no keyframe in effect
    assert_eq!(changed_keyframe(&times, 1.5f32.to_bits(), 0.0f32.to_bits()), None);
    assert_eq!(changed_keyframe(&[], 0, 1.0f32.to_bits()), None);
}
