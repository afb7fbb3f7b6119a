//! Keyframes, timelines and the choice of the keyframes that surround a
//! point in time.
use vstd::prelude::*;
use crate::error::TimelineError;
use crate::json::JsonValue;
use crate::keyframe::{AnimatableValue, TimelineKeyframe, lemma_keyframes_failure_stays, spec_keyframe, spec_keyframes};
use crate::time::{count_before, keys_sorted, order_key, search_time, time_order_key, is_partition_point, lemma_partition_point_is_count, lemma_count_is_partition_point};

verus! {

/// The keyframes that surround a time: the last one before it and the first
/// one at or after it, each by index.
pub type KeyframePair = (Option<usize>, Option<usize>);

/// The pair of neighbours of the partition point `p` in a list of `len` keyframes.
pub open spec fn pair_at(len: int, p: int) -> KeyframePair {
    (
        if p > 0 { Some((p - 1) as usize) } else { None },
        if p < len { Some(p as usize) } else { None },
    )
}

/// What is to be done with a target at a point in time.
#[derive(PartialEq, Eq, Structural, Debug, Clone, Copy)]
pub enum KeyframeStep {
    /// Nothing is written to the target.
    Idle,
    /// The target takes the value of this keyframe as it is.
    Hold(usize),
    /// The target takes a blend of the first keyframe toward the second, by
    /// the fraction of the way the time has gone from the first to the second.
    Blend(usize, usize),
}

/// The step for a keyframe pair when the last keyframe is held after the end.
pub open spec fn step_holding_last(pair: KeyframePair) -> KeyframeStep {
    match pair {
        (Some(b), None) => KeyframeStep::Hold(b),
        (Some(b), Some(n)) => KeyframeStep::Blend(b, n),
        _ => KeyframeStep::Idle,
    }
}

/// The step for a keyframe pair when nothing is written after the end.
pub open spec fn step_stopping_at_end(pair: KeyframePair) -> KeyframeStep {
    match pair {
        (Some(b), Some(n)) => KeyframeStep::Blend(b, n),
        _ => KeyframeStep::Idle,
    }
}

/// Finds the keyframes around `time` in a list of keyframe times: `Some(i - 1)`
/// and `Some(i)` around the place `i` that the binary search gives, where they
/// exist; `(None, None)` for an empty list.
pub fn keyframe_pair_indices(times: &[u32], time: u32) -> (pair: KeyframePair)
    ensures
        times@.len() == 0 ==> pair == (None::<usize>, None::<usize>),
        times@.len() > 0 ==> exists|p: int| 0 <= p <= times@.len() && #[trigger] pair_at(times@.len() as int, p) == pair,
        keys_sorted(times@) && times@.len() > 0 ==> pair == pair_at(times@.len() as int, count_before(times@, time) as int),
{
    if times.len() == 0 {
        return (None, None);
    }
    let i = match search_time(times, time) {
        Ok(i) => i,
        Err(i) => i,
    };
    let before = if i > 0 { Some(i - 1) } else { None };
    let next = if i < times.len() { Some(i) } else { None };
    assert(pair_at(times@.len() as int, i as int) == (before, next));
    (before, next)
}


/// The step for a list of keyframe times at `time`, where the last keyframe
/// is held once the time has passed it.
pub fn plan_keyframe_step(times: &[u32], time: u32) -> (step: KeyframeStep)
    ensures
        times@.len() == 0 ==> step == KeyframeStep::Idle,
        keys_sorted(times@) && times@.len() > 0 ==> step == step_holding_last(
            pair_at(times@.len() as int, count_before(times@, time) as int),
        ),
        match step {
            KeyframeStep::Idle => true,
            KeyframeStep::Hold(b) => b < times@.len(),
            KeyframeStep::Blend(b, n) => b < times@.len() && n < times@.len() && b + 1 == n,
        },
{
    if times.len() == 0 {
        return KeyframeStep::Idle;
    }
    let pair = keyframe_pair_indices(times, time);
    proof {
        let p = choose|p: int| 0 <= p <= times@.len() && #[trigger] pair_at(times@.len() as int, p) == pair;
        assert(pair_at(times@.len() as int, p) == pair);
    }
    match pair {
        (Some(b), None) => KeyframeStep::Hold(b),
        (Some(b), Some(n)) => KeyframeStep::Blend(b, n),
        _ => KeyframeStep::Idle,
    }
}

/// The keyframe in effect at `time`: the last one whose time comes before it.
pub open spec fn keyframe_in_effect(times: Seq<u32>, time: u32) -> Option<usize> {
    pair_at(times.len() as int, count_before(times, time) as int).0
}

/// The keyframe in effect at `curr_time`, when it is another one than the
/// keyframe in effect at `prev_time`; `None` when the keyframe in effect has
/// not changed, or there is none at `curr_time`.
pub fn changed_keyframe(times: &[u32], prev_time: u32, curr_time: u32) -> (r: Option<usize>)
    ensures
        r matches Some(j) ==> j < times@.len(),
        keys_sorted(times@) ==> r == if keyframe_in_effect(times@, curr_time) != keyframe_in_effect(
            times@,
            prev_time,
        ) {
            keyframe_in_effect(times@, curr_time)
        } else {
            None
        },
{
    if times.len() == 0 {
        return None;
    }
    let before = keyframe_pair_indices(times, prev_time).0;
    let now = keyframe_pair_indices(times, curr_time);
    proof {
        let p = choose|p: int| 0 <= p <= times@.len() && #[trigger] pair_at(times@.len() as int, p) == now;
        assert(pair_at(times@.len() as int, p) == now);
    }
    if now.0 == before {
        None
    } else {
        now.0
    }
}

/// A value at a point in time.
pub struct Keyframe<V> {
    pub time: u32,
    pub value: V,
}

impl<V> Keyframe<V> {
    /// A keyframe of `value` at `time`.
    pub fn new(time: u32, value: V) -> (k: Keyframe<V>)
        ensures
            k.time == time,
            k.value == value,
    {
        Keyframe { time, value }
    }
}

/// The keyframe for a keyframe that was read.
pub open spec fn keyframe_of<V>(k: TimelineKeyframe<V>) -> Keyframe<V> {
    Keyframe { time: k.time, value: k.data }
}

impl<V: AnimatableValue> Keyframe<V> {
    /// Reads a keyframe from a JSON object with a number `time` and a `data`
    /// member, which the value type reads; the checks come in the order of
    /// `spec_keyframe_header`.
    pub fn load_frame(value: &JsonValue) -> (r: Result<Keyframe<V>, TimelineError>)
        ensures
            match spec_keyframe::<V>(*value) {
                Ok(k) => r == Ok::<Keyframe<V>, TimelineError>(keyframe_of(k)),
                Err(e) => r == Err::<Keyframe<V>, TimelineError>(e),
            },
    {
        match TimelineKeyframe::<V>::from(value) {
            Ok(k) => Ok(Keyframe { time: k.time, value: k.data }),
            Err(e) => Err(e),
        }
    }

    /// Reads the keyframes of a list in order, stopping at the first that
    /// cannot be read.
    pub fn load_frames(values: &Vec<JsonValue>) -> (r: Result<Vec<Keyframe<V>>, TimelineError>)
        ensures
            match spec_keyframes::<V>(values@) {
                Ok(ks) => r matches Ok(frames) && frames@ == ks.map_values(|k: TimelineKeyframe<V>| keyframe_of(k)),
                Err(e) => r == Err::<Vec<Keyframe<V>>, TimelineError>(e),
            },
    {
        let mut frames: Vec<Keyframe<V>> = Vec::with_capacity(values.len());
        let ghost mut ks: Seq<TimelineKeyframe<V>> = Seq::empty();
        let mut j: usize = 0;
        assert(values@.take(0) =~= Seq::<JsonValue>::empty());
        while j < values.len()
            invariant
                0 <= j <= values@.len(),
                spec_keyframes::<V>(values@.take(j as int)) == Ok::<Seq<TimelineKeyframe<V>>, TimelineError>(ks),
                frames@ == ks.map_values(|k: TimelineKeyframe<V>| keyframe_of(k)),
            decreases values@.len() - j,
        {
            assert(values@.take(j + 1).drop_last() =~= values@.take(j as int));
            assert(values@.take(j + 1).last() == values@[j as int]);
            match TimelineKeyframe::<V>::from(&values[j]) {
                Ok(k) => {
                    proof {
                        ks = ks.push(k);
                    }
                    frames.push(Keyframe { time: k.time, value: k.data });
                    assert(frames@ =~= ks.map_values(|k: TimelineKeyframe<V>| keyframe_of(k)));
                },
                Err(e) => {
                    proof {
                        lemma_keyframes_failure_stays::<V>(values@, j + 1);
                    }
                    return Err(e);
                },
            }
            j = j + 1;
        }
        assert(values@.take(values@.len() as int) =~= values@);
        Ok(frames)
    }
}

/// The times of a list of keyframes.
pub open spec fn keyframe_times<V>(keyframes: Seq<Keyframe<V>>) -> Seq<u32> {
    Seq::new(keyframes.len(), |i: int| keyframes[i].time)
}

/// `r` holds the neighbours of the partition point `p` in `keyframes`: the
/// keyframe before it and the one at it, where they exist.
pub open spec fn refs_at<'a, K>(
    keyframes: Seq<Keyframe<K>>,
    p: int,
    r: (Option<&'a Keyframe<K>>, Option<&'a Keyframe<K>>),
) -> bool {
    &&& 0 <= p <= keyframes.len()
    &&& (if p > 0 { r.0 == Some(&keyframes[p - 1]) } else { r.0 is None })
    &&& (if p < keyframes.len() { r.1 == Some(&keyframes[p]) } else { r.1 is None })
}

/// A named list of keyframes of one kind of value.
pub struct Timeline<K> {
    name: String,
    duration: u32,
    keyframes: Vec<Keyframe<K>>,
}

impl<K> Timeline<K> {
    /// The name of the timeline.
    pub closed spec fn spec_name(&self) -> Seq<char> {
        self.name@
    }

    /// The duration of the timeline.
    pub closed spec fn spec_duration(&self) -> u32 {
        self.duration
    }

    /// The keyframes, in the order of their times.
    pub closed spec fn spec_keyframes(&self) -> Seq<Keyframe<K>> {
        self.keyframes@
    }

    /// A timeline of the keyframes.
    pub fn new(name: String, duration: u32, keyframes: Vec<Keyframe<K>>) -> (t: Timeline<K>)
        ensures
            t.spec_name() == name@,
            t.spec_duration() == duration,
            t.spec_keyframes() == keyframes@,
    {
        Timeline { name, duration, keyframes }
    }

    /// Index of the first keyframe not before `time`, found by binary search.
    fn partition_index(&self, time: u32) -> (i: usize)
        ensures
            i <= self.keyframes@.len(),
            keys_sorted(keyframe_times(self.keyframes@)) ==> i == count_before(
                keyframe_times(self.keyframes@),
                time,
            ),
    {
        let ghost times = keyframe_times(self.keyframes@);
        let len = self.keyframes.len();
        let mut lo: usize = 0;
        let mut hi: usize = len;
        let key = time_order_key(time);
        while lo < hi
            invariant
                len == self.keyframes@.len(),
                times == keyframe_times(self.keyframes@),
                key == order_key(time),
                0 <= lo <= hi <= len,
                keys_sorted(times) ==> forall|j: int| 0 <= j < lo ==> order_key(#[trigger] times[j]) < order_key(time),
                keys_sorted(times) ==> forall|j: int| hi <= j < len ==> order_key(time) <= order_key(#[trigger] times[j]),
            decreases hi - lo,
        {
            let mid: usize = lo + (hi - lo) / 2;
            assert(times[mid as int] == self.keyframes@[mid as int].time);
            if time_order_key(self.keyframes[mid].time) < key {
                lo = mid + 1;
            } else {
                hi = mid;
            }
        }
        proof {
            if keys_sorted(times) {
                assert(is_partition_point(times, time, lo as int));
                lemma_partition_point_is_count(times, time, lo as int);
            }
        }
        lo
    }

    /// The keyframes around `time`: the last one before it and the first one
    /// at or after it, where they exist.
    pub fn find_keyframe_pair(&self, time: u32) -> (r: (Option<&Keyframe<K>>, Option<&Keyframe<K>>))
        ensures
            self.spec_keyframes().len() == 0 ==> r.0 is None && r.1 is None,
            self.spec_keyframes().len() > 0 ==> exists|p: int| #[trigger] refs_at(self.spec_keyframes(), p, r),
            keys_sorted(keyframe_times(self.spec_keyframes())) ==> refs_at(
                self.spec_keyframes(),
                count_before(keyframe_times(self.spec_keyframes()), time) as int,
                r,
            ),
    {
        if self.keyframes.len() == 0 {
            return (None, None);
        }
        let i = self.partition_index(time);
        let before = if i > 0 { Some(&self.keyframes[i - 1]) } else { None };
        let next = if i < self.keyframes.len() { Some(&self.keyframes[i]) } else { None };
        assert(refs_at(self.spec_keyframes(), i as int, (before, next)));
        (before, next)
    }

    /// The keyframes, in the order of their times.
    pub fn keyframes(&self) -> (r: &[Keyframe<K>])
        ensures
            r@ == self.spec_keyframes(),
    {
        self.keyframes.as_slice()
    }

    /// What `interpolate` does at `anim_time`: a blend between the keyframes
    /// around it, and nothing before the first or after the last keyframe.
    pub fn interpolation_step(&self, anim_time: u32) -> (step: KeyframeStep)
        ensures
            self.spec_keyframes().len() == 0 ==> step == KeyframeStep::Idle,
            keys_sorted(keyframe_times(self.spec_keyframes())) && self.spec_keyframes().len() > 0
                ==> step == step_stopping_at_end(
                pair_at(
                    self.spec_keyframes().len() as int,
                    count_before(keyframe_times(self.spec_keyframes()), anim_time) as int,
                ),
            ),
            match step {
                KeyframeStep::Blend(b, n) => b + 1 == n && n < self.spec_keyframes().len(),
                KeyframeStep::Hold(_) => false,
                KeyframeStep::Idle => true,
            },
    {
        if self.keyframes.len() == 0 {
            return KeyframeStep::Idle;
        }
        let i = self.partition_index(anim_time);
        if i > 0 && i < self.keyframes.len() {
            KeyframeStep::Blend(i - 1, i)
        } else {
            KeyframeStep::Idle
        }
    }
}


/// In sorted times, the keyframe pair around a time brackets it: the one
/// before is strictly before it, the one after is at or after it, they are
/// neighbours, and a missing side means the time is past the last keyframe
/// or not after the first.
pub proof fn lemma_pair_brackets(times: Seq<u32>, time: u32)
    requires
        keys_sorted(times),
        0 < times.len() <= usize::MAX,
    ensures
        ({
            let pair = pair_at(times.len() as int, count_before(times, time) as int);
            &&& (pair.0 matches Some(b) ==> order_key(times[b as int]) < order_key(time))
            &&& (pair.1 matches Some(n) ==> order_key(time) <= order_key(times[n as int]))
            &&& (match pair {
                (Some(b), Some(n)) => b + 1 == n,
                _ => true,
            })
            &&& (pair.1 is None ==> forall|j: int| 0 <= j < times.len() ==> order_key(#[trigger] times[j]) < order_key(time))
            &&& (pair.0 is None ==> order_key(time) <= order_key(times[0]))
        }),
{
    lemma_count_is_partition_point(times, time);
    let c = count_before(times, time) as int;
    if c > 0 {
        assert(order_key(times[c - 1]) < order_key(time));
    } else {
        assert(order_key(time) <= order_key(times[0]));
    }
    if c < times.len() {
        assert(order_key(time) <= order_key(times[c]));
    }
}

/// With the last keyframe held, a target is held exactly when the time is
/// past every keyframe, and blended exactly when it is after the first and
/// not after the last.
pub proof fn lemma_step_holding_last(times: Seq<u32>, time: u32)
    requires
        keys_sorted(times),
        0 < times.len() <= usize::MAX,
    ensures
        ({
            let step = step_holding_last(pair_at(times.len() as int, count_before(times, time) as int));
            &&& (step is Hold <==> order_key(times[times.len() - 1]) < order_key(time))
            &&& (step is Blend <==> order_key(times[0]) < order_key(time) && order_key(time) <= order_key(times[times.len() - 1]))
            &&& (step is Idle <==> order_key(time) <= order_key(times[0]))
        }),
{
    lemma_count_is_partition_point(times, time);
    let c = count_before(times, time) as int;
    let last = times.len() - 1;
    if c == times.len() {
        assert(order_key(times[last]) < order_key(time));
    } else {
        assert(order_key(time) <= order_key(times[c]));
        assert(order_key(times[c]) <= order_key(times[last]));
    }
    if c > 0 {
        assert(order_key(times[0]) < order_key(time));
    } else {
        assert(order_key(time) <= order_key(times[0]));
    }
}

} // verus!
