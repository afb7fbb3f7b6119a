//! Playback control: how a session moves through an animation, and the
//! player that holds the sessions of an entity and finds them by name.
//!
//! Times (positions, durations, rates) are the bit patterns of single
//! precision numbers; the arithmetic on them is done by the caller.
use vstd::prelude::*;
use crate::time::ZERO_TIME;
use crate::text::str_eq;
use crate::entries::{find_entry, insert_entry, insert_key, lookup, lemma_find_key_found, names_view};

verus! {

/// How a session moves through its animation.
#[derive(Debug)]
pub enum TimelinePlayback {
    /// Play forward from the current position until the end.
    Forward,
    /// Play forward continuously until stopped.
    ForwardLoop,
    /// Play backward from the current position to the start.
    Backward,
    /// Play backward continuously until stopped.
    BackwardLoop,
    /// Advance once by the given fraction of the duration, then stop.
    StepByRate(u32),
    /// Advance once by the given time, then stop.
    StepByTime(u32),
    /// Paused; holds the playback to go back to on resume.
    Pause(Box<TimelinePlayback>),
    /// Stopped, as a new session is, with nothing kept to resume.
    Stop,
}

impl TimelinePlayback {
    /// Whether this playback moves the session on.
    pub open spec fn spec_is_playing(&self) -> bool {
        !(self is Pause || self is Stop)
    }

    /// An equal copy.
    pub fn duplicate(&self) -> (r: TimelinePlayback)
        ensures
            r == *self,
        decreases self,
    {
        match self {
            TimelinePlayback::Forward => TimelinePlayback::Forward,
            TimelinePlayback::ForwardLoop => TimelinePlayback::ForwardLoop,
            TimelinePlayback::Backward => TimelinePlayback::Backward,
            TimelinePlayback::BackwardLoop => TimelinePlayback::BackwardLoop,
            TimelinePlayback::StepByRate(r) => TimelinePlayback::StepByRate(*r),
            TimelinePlayback::StepByTime(t) => TimelinePlayback::StepByTime(*t),
            TimelinePlayback::Pause(inner) => TimelinePlayback::Pause(Box::new(inner.duplicate())),
            TimelinePlayback::Stop => TimelinePlayback::Stop,
        }
    }
}

impl Clone for TimelinePlayback {
    fn clone(&self) -> (r: Self)
        ensures
            r == *self,
    {
        self.duplicate()
    }
}

impl Default for TimelinePlayback {
    fn default() -> (r: Self)
        ensures
            r == TimelinePlayback::ForwardLoop,
    {
        TimelinePlayback::ForwardLoop
    }
}


/// How long a session plays its animation.
#[derive(Debug, Clone, Copy, PartialEq, Eq, Structural)]
pub enum TimelineDuration {
    /// The animation's own duration.
    Original,
    /// The given duration; a shorter one cuts the animation off, a longer one
    /// extends it at the end.
    CropOrExtendAtEnd(u32),
    /// The given duration; the difference goes to the start.
    CropOrExtendAtStart(u32),
    /// The animation's duration scaled by the given factor.
    TimeScale(u32),
}

impl Default for TimelineDuration {
    fn default() -> (r: Self)
        ensures
            r == TimelineDuration::Original,
    {
        TimelineDuration::Original
    }
}

/// Where a session starts playing.
#[derive(Debug, Clone, Copy, PartialEq, Eq, Structural)]
pub enum TimelinePosition {
    /// A fraction of the duration (`0.0` is the start, `1.0` the end).
    Normalized(u32),
    /// A time in seconds.
    Absolute(u32),
}

impl Default for TimelinePosition {
    fn default() -> (r: Self)
        ensures
            r == TimelinePosition::Absolute(ZERO_TIME),
    {
        TimelinePosition::Absolute(ZERO_TIME)
    }
}

/// The progress of a session over one update.
#[derive(Debug, Clone, Copy, PartialEq, Eq, Structural)]
pub struct TimelineProgress {
    pub duration: u32,
    pub prev_time: u32,
    pub curr_time: u32,
}

/// An entity bound to one target of an animation.
#[derive(Debug)]
pub struct TimelineTargetBinded {
    /// Short type name of the values that the target holds.
    pub typ: &'static str,
    /// The entity, by its bits.
    pub entity: u64,
    /// Index of the target in the animation.
    pub target_idx: usize,
}

impl TimelineTargetBinded {
    /// An equal copy.
    pub fn duplicate(&self) -> (r: TimelineTargetBinded)
        ensures
            r == *self,
    {
        TimelineTargetBinded { typ: self.typ, entity: self.entity, target_idx: self.target_idx }
    }
}

/// Options for starting a session.
#[derive(Debug)]
pub struct TimelinePlayOption {
    position: Option<TimelinePosition>,
    playback: Option<TimelinePlayback>,
    duration: Option<TimelineDuration>,
}

impl TimelinePlayOption {
    /// Where playing is to start, if the options say.
    pub closed spec fn spec_position(&self) -> Option<TimelinePosition> {
        self.position
    }

    /// The playback to play with, if the options say.
    pub closed spec fn spec_playback(&self) -> Option<TimelinePlayback> {
        self.playback
    }

    /// How long to play, if the options say.
    pub closed spec fn spec_duration(&self) -> Option<TimelineDuration> {
        self.duration
    }

    /// Options that leave everything at its default.
    pub fn new() -> (o: Self)
        ensures
            o.spec_position() is None,
            o.spec_playback() is None,
            o.spec_duration() is None,
    {
        TimelinePlayOption { position: None, playback: None, duration: None }
    }

    /// Sets where playing starts.
    pub fn set_position(self, start: TimelinePosition) -> (o: Self)
        ensures
            o.spec_position() == Some(start),
            o.spec_playback() == self.spec_playback(),
            o.spec_duration() == self.spec_duration(),
    {
        TimelinePlayOption { position: Some(start), ..self }
    }

    /// Sets the playback mode.
    pub fn set_playback(self, playback: TimelinePlayback) -> (o: Self)
        ensures
            o.spec_position() == self.spec_position(),
            o.spec_playback() == Some(playback),
            o.spec_duration() == self.spec_duration(),
    {
        TimelinePlayOption { playback: Some(playback), ..self }
    }

    /// Sets the play duration.
    pub fn set_duration(self, duration: TimelineDuration) -> (o: Self)
        ensures
            o.spec_position() == self.spec_position(),
            o.spec_playback() == self.spec_playback(),
            o.spec_duration() == Some(duration),
    {
        TimelinePlayOption { duration: Some(duration), ..self }
    }

    /// An equal copy.
    pub fn duplicate(&self) -> (o: Self)
        ensures
            o == *self,
    {
        let playback = match &self.playback {
            Some(p) => Some(p.duplicate()),
            None => None,
        };
        TimelinePlayOption { position: self.position, playback, duration: self.duration }
    }
}

impl Clone for TimelinePlayOption {
    fn clone(&self) -> (o: Self)
        ensures
            o == *self,
    {
        self.duplicate()
    }
}

impl Default for TimelinePlayOption {
    fn default() -> (o: Self)
        ensures
            o.spec_position() is None,
            o.spec_playback() is None,
            o.spec_duration() is None,
    {
        TimelinePlayOption::new()
    }
}


/// Whether the bound entity's target holds values of the type named `typ`.
pub open spec fn binds_type(b: TimelineTargetBinded, typ: Seq<char>) -> bool {
    b.typ@ == typ
}

/// The playback that `play` sets for the given options.
pub open spec fn playback_after_play(option: TimelinePlayOption) -> TimelinePlayback {
    match option.spec_playback() {
        Some(p) => p,
        None => TimelinePlayback::ForwardLoop,
    }
}

/// The progress that `play` sets for the given options; a normalized start
/// is left at zero for the caller to scale.
pub open spec fn progress_after_play(option: TimelinePlayOption) -> u32 {
    match option.spec_position() {
        Some(TimelinePosition::Absolute(t)) => t,
        _ => ZERO_TIME,
    }
}

/// The fraction of the duration at which `play` asks the caller to put the
/// play head, for a normalized start.
pub open spec fn pending_after_play(option: TimelinePlayOption) -> Option<u32> {
    match option.spec_position() {
        Some(TimelinePosition::Normalized(r)) => Some(r),
        _ => None,
    }
}

/// The playback after a pause: the current one kept for resuming, unless it
/// is already paused.
pub open spec fn paused(p: TimelinePlayback) -> TimelinePlayback {
    if p is Pause {
        p
    } else {
        TimelinePlayback::Pause(Box::new(p))
    }
}

/// The playback after a resume: the one kept by a pause, otherwise unchanged.
pub open spec fn resumed(p: TimelinePlayback) -> TimelinePlayback {
    match p {
        TimelinePlayback::Pause(inner) => *inner,
        _ => p,
    }
}

/// One animation played on an entity.
pub struct TimelineSession<H> {
    pub is_loop_interpolation: bool,
    pub duration: u32,
    pub prev_progress: u32,
    pub progress: u32,
    pub playback: TimelinePlayback,
    pub play_duration: TimelineDuration,
    pub anim_handle: H,
    pub binded_targets: Vec<TimelineTargetBinded>,
}

impl<H> TimelineSession<H> {
    /// The entities bound to targets of the animation.
    pub open spec fn spec_binded(&self) -> Seq<TimelineTargetBinded> {
        self.binded_targets@
    }

    /// A stopped session at time zero, with no targets bound.
    pub fn new(anim_handle: H) -> (s: Self)
        ensures
            s.is_loop_interpolation,
            s.duration == ZERO_TIME,
            s.prev_progress == ZERO_TIME,
            s.progress == ZERO_TIME,
            s.playback == TimelinePlayback::Stop,
            s.play_duration == TimelineDuration::Original,
            s.anim_handle == anim_handle,
            s.spec_binded() == Seq::<TimelineTargetBinded>::empty(),
    {
        TimelineSession {
            is_loop_interpolation: true,
            duration: ZERO_TIME,
            prev_progress: ZERO_TIME,
            progress: ZERO_TIME,
            playback: TimelinePlayback::Stop,
            play_duration: TimelineDuration::Original,
            anim_handle,
            binded_targets: Vec::new(),
        }
    }

    /// The entities bound to targets of the animation.
    pub fn binded_targets(&self) -> (r: &[TimelineTargetBinded])
        ensures
            r@ == self.spec_binded(),
    {
        self.binded_targets.as_slice()
    }

    /// Replaces the bound entities.
    pub fn set_binded(&mut self, binded: Vec<TimelineTargetBinded>)
        ensures
            *final(self) == (TimelineSession { binded_targets: binded, ..*old(self) }),
    {
        self.binded_targets = binded;
    }

    /// Starts playing: from time zero, or from the position that the options
    /// give, with their playback mode (playing forward in a loop by default)
    /// and, where they give one, their play duration.
    /// For a position given as a fraction of the duration, the fraction is
    /// returned: the play head is then to be put at that fraction of
    /// `duration`.
    pub fn play(&mut self, option: TimelinePlayOption) -> (pending: Option<u32>)
        ensures
            *final(self) == played(*old(self), option),
            pending == pending_after_play(option),
    {
        self.progress = ZERO_TIME;
        let mut pending = None;
        match option.position {
            Some(TimelinePosition::Normalized(r)) => {
                pending = Some(r);
            },
            Some(TimelinePosition::Absolute(t)) => {
                self.progress = t;
            },
            None => {},
        }
        self.playback = match option.playback {
            Some(p) => p,
            None => TimelinePlayback::default(),
        };
        if let Some(d) = option.duration {
            self.play_duration = d;
        }
        pending
    }

    /// Goes back to the playback that a pause kept.
    pub fn resume(&mut self)
        ensures
            *final(self) == with_playback(*old(self), resumed(old(self).playback)),
    {
        let next = match &self.playback {
            TimelinePlayback::Pause(inner) => Some(inner.duplicate()),
            _ => None,
        };
        if let Some(p) = next {
            self.playback = p;
        }
    }

    /// Stops the session where it is: its playback is kept, as `pause`
    /// keeps it, so that `resume` goes on from the point where it stopped.
    pub fn stop(&mut self)
        ensures
            *final(self) == with_playback(*old(self), paused(old(self).playback)),
    {
        self.pause();
    }

    /// Pauses the session, keeping its playback for `resume`.
    pub fn pause(&mut self)
        ensures
            *final(self) == with_playback(*old(self), paused(old(self).playback)),
    {
        if let TimelinePlayback::Pause(_) = &self.playback {
            return;
        }
        let current = self.playback.duplicate();
        self.playback = TimelinePlayback::Pause(Box::new(current));
    }

    /// Whether the session is playing (neither paused nor stopped).
    pub fn is_playing(&self) -> (r: bool)
        ensures
            r == self.playback.spec_is_playing(),
    {
        match self.playback {
            TimelinePlayback::Pause(_) | TimelinePlayback::Stop => false,
            _ => true,
        }
    }

    /// The current playback.
    pub fn status(&self) -> (r: TimelinePlayback)
        ensures
            r == self.playback,
    {
        self.playback.duplicate()
    }

    /// Starts an update of the play head: keeps the current progress as the
    /// previous one, and returns how the progress is to move by the elapsed
    /// time. A step is carried out once: the session stops after it.
    pub fn plan_update_time(&mut self) -> (plan: TimeUpdate)
        ensures
            *final(self) == updated(*old(self)),
            plan == spec_time_update(old(self).playback),
    {
        self.prev_progress = self.progress;
        match self.playback {
            TimelinePlayback::Forward => TimeUpdate::AdvanceClamped,
            TimelinePlayback::ForwardLoop => TimeUpdate::AdvanceWrapped,
            TimelinePlayback::Backward => TimeUpdate::RewindClamped,
            TimelinePlayback::BackwardLoop => TimeUpdate::RewindWrapped,
            TimelinePlayback::StepByRate(r) => {
                self.playback = TimelinePlayback::Stop;
                TimeUpdate::AdvanceByRate(r)
            },
            TimelinePlayback::StepByTime(t) => {
                self.playback = TimelinePlayback::Stop;
                TimeUpdate::AdvanceBy(t)
            },
            TimelinePlayback::Pause(_) => TimeUpdate::Hold,
            TimelinePlayback::Stop => TimeUpdate::Hold,
        }
    }

    /// The bound entities whose target holds values of the type named `typ`.
    pub fn get_entities(&self, typ: &str) -> (r: Vec<&TimelineTargetBinded>)
        ensures
            r@.map_values(|b: &TimelineTargetBinded| *b) == self.spec_binded().filter(
                |b: TimelineTargetBinded| binds_type(b, typ@),
            ),
    {
        let mut r: Vec<&TimelineTargetBinded> = Vec::new();
        let ghost pred = |b: TimelineTargetBinded| binds_type(b, typ@);
        let mut i: usize = 0;
        while i < self.binded_targets.len()
            invariant
                0 <= i <= self.binded_targets@.len(),
                pred == (|b: TimelineTargetBinded| binds_type(b, typ@)),
                r@.map_values(|b: &TimelineTargetBinded| *b) == self.binded_targets@.take(i as int).filter(pred),
            decreases self.binded_targets@.len() - i,
        {
            let b = &self.binded_targets[i];
            let ghost before = r@;
            if str_eq(b.typ, typ) {
                r.push(b);
                assert(r@.map_values(|b: &TimelineTargetBinded| *b) =~= before.map_values(
                    |b: &TimelineTargetBinded| *b,
                ).push(*b));
            }
            proof {
                reveal_with_fuel(Seq::<_>::filter, 1);
                let t = self.binded_targets@.take(i + 1);
                assert(t.drop_last() =~= self.binded_targets@.take(i as int));
                assert(t.last() == self.binded_targets@[i as int]);
            }
            i = i + 1;
        }
        assert(self.binded_targets@.take(self.binded_targets@.len() as int) =~= self.binded_targets@);
        r
    }
}


/// How the play head moves in one update by the elapsed time; the arithmetic
/// on times is the caller's.
#[derive(Debug, Clone, Copy, PartialEq, Eq, Structural)]
pub enum TimeUpdate {
    /// `progress + elapsed`, at most the duration.
    AdvanceClamped,
    /// `progress + elapsed`, wrapped into `[0, duration)`.
    AdvanceWrapped,
    /// `progress - elapsed`, at least zero.
    RewindClamped,
    /// `progress - elapsed`, wrapped into `[0, duration)`.
    RewindWrapped,
    /// `progress + duration * rate`, for the given rate: one step.
    AdvanceByRate(u32),
    /// `progress + time`, for the given time: one step.
    AdvanceBy(u32),
    /// The play head stays where it is.
    Hold,
}

/// The move of the play head for a playback.
pub open spec fn spec_time_update(p: TimelinePlayback) -> TimeUpdate {
    match p {
        TimelinePlayback::Forward => TimeUpdate::AdvanceClamped,
        TimelinePlayback::ForwardLoop => TimeUpdate::AdvanceWrapped,
        TimelinePlayback::Backward => TimeUpdate::RewindClamped,
        TimelinePlayback::BackwardLoop => TimeUpdate::RewindWrapped,
        TimelinePlayback::StepByRate(r) => TimeUpdate::AdvanceByRate(r),
        TimelinePlayback::StepByTime(t) => TimeUpdate::AdvanceBy(t),
        _ => TimeUpdate::Hold,
    }
}

/// The playback after one update: a step is done once, and the session
/// stops after it; any other playback goes on.
pub open spec fn playback_after_update(p: TimelinePlayback) -> TimelinePlayback {
    match p {
        TimelinePlayback::StepByRate(_) | TimelinePlayback::StepByTime(_) => TimelinePlayback::Stop,
        _ => p,
    }
}

/// The session as an update leaves it before the arithmetic: the previous
/// progress is the current one, and a step playback has become `Stop`.
pub open spec fn updated<H>(s: TimelineSession<H>) -> TimelineSession<H> {
    TimelineSession { prev_progress: s.progress, playback: playback_after_update(s.playback), ..s }
}

/// The session as `play` leaves it for the given options.
pub open spec fn played<H>(s: TimelineSession<H>, option: TimelinePlayOption) -> TimelineSession<H> {
    TimelineSession {
        playback: playback_after_play(option),
        progress: progress_after_play(option),
        play_duration: match option.spec_duration() {
            Some(d) => d,
            None => s.play_duration,
        },
        ..s
    }
}

/// The session with its playback set to `p`.
pub open spec fn with_playback<H>(s: TimelineSession<H>, p: TimelinePlayback) -> TimelineSession<H> {
    TimelineSession { playback: p, ..s }
}

/// A request to put the play head of a session at a fraction of its duration.
#[derive(Debug, Clone, Copy, PartialEq, Eq, Structural)]
pub struct PendingPosition {
    /// Index of the session.
    pub session: usize,
    /// The fraction, as the bits of a single precision number.
    pub ratio: u32,
}

/// The sessions of an entity, found by name.
pub struct TimelinePlayer<H> {
    sessions: Vec<TimelineSession<H>>,
    shortcut: Vec<(String, usize)>,
    lazy_play: Vec<(String, TimelinePlayOption)>,
}

/// The name list after the names are set to their indices, in order.
pub open spec fn shortcuts_after(list: Seq<(Seq<char>, usize)>, names: Seq<String>) -> Seq<(Seq<char>, usize)>
    decreases names.len(),
{
    if names.len() == 0 {
        list
    } else {
        insert_key(shortcuts_after(list, names.drop_last()), names.last()@, (names.len() - 1) as usize)
    }
}

/// The sessions after the deferred plays are carried out, in order, for the
/// names that `shortcut` knows.
pub open spec fn sessions_after_lazy<H>(
    sessions: Seq<TimelineSession<H>>,
    shortcut: Seq<(Seq<char>, usize)>,
    lazy: Seq<(Seq<char>, TimelinePlayOption)>,
) -> Seq<TimelineSession<H>>
    decreases lazy.len(),
{
    if lazy.len() == 0 {
        sessions
    } else {
        let s = sessions_after_lazy(sessions, shortcut, lazy.drop_last());
        match lookup(shortcut, lazy.last().0) {
            Some(i) => if i < s.len() {
                s.update(i as int, played(s[i as int], lazy.last().1))
            } else {
                s
            },
            None => s,
        }
    }
}

/// The requests that the deferred plays leave to the caller, in order.
pub open spec fn pending_after_lazy(
    shortcut: Seq<(Seq<char>, usize)>,
    lazy: Seq<(Seq<char>, TimelinePlayOption)>,
) -> Seq<PendingPosition>
    decreases lazy.len(),
{
    if lazy.len() == 0 {
        Seq::empty()
    } else {
        let p = pending_after_lazy(shortcut, lazy.drop_last());
        match lookup(shortcut, lazy.last().0) {
            Some(i) => match pending_after_play(lazy.last().1) {
                Some(r) => p.push(PendingPosition { session: i, ratio: r }),
                None => p,
            },
            None => p,
        }
    }
}

impl<H> TimelinePlayer<H> {
    /// The sessions, in the order they were created.
    pub closed spec fn spec_sessions(&self) -> Seq<TimelineSession<H>> {
        self.sessions@
    }

    /// The names of sessions, each with the index of its session.
    pub closed spec fn spec_shortcut(&self) -> Seq<(Seq<char>, usize)> {
        names_view(self.shortcut@)
    }

    /// The plays asked for by names that were not known, with their options.
    pub closed spec fn spec_lazy_play(&self) -> Seq<(Seq<char>, TimelinePlayOption)> {
        names_view(self.lazy_play@)
    }

    /// Every name is given to one of the sessions.
    pub open spec fn names_in_range(&self) -> bool {
        forall|k: int| 0 <= k < self.spec_shortcut().len() ==> (#[trigger] self.spec_shortcut()[k]).1 < self.spec_sessions().len()
    }

    /// The player as its operations keep it: every name is given to one of
    /// the sessions, and no two deferred plays share a name.
    pub open spec fn well_formed(&self) -> bool {
        &&& self.names_in_range()
        &&& names_distinct(self.spec_lazy_play())
    }

    /// A player without sessions.
    pub fn new() -> (p: Self)
        ensures
            p.well_formed(),
            p.spec_sessions() == Seq::<TimelineSession<H>>::empty(),
            p.spec_shortcut() == Seq::<(Seq<char>, usize)>::empty(),
            p.spec_lazy_play() == Seq::<(Seq<char>, TimelinePlayOption)>::empty(),
    {
        let p = TimelinePlayer { sessions: Vec::new(), shortcut: Vec::new(), lazy_play: Vec::new() };
        assert(p.spec_shortcut() =~= Seq::<(Seq<char>, usize)>::empty());
        assert(p.spec_lazy_play() =~= Seq::<(Seq<char>, TimelinePlayOption)>::empty());
        p
    }

    /// Adds a stopped session for the animation.
    pub fn create_session(self, anim_handle: H) -> (p: Self)
        ensures
            p.spec_sessions().len() == self.spec_sessions().len() + 1,
            p.spec_sessions().drop_last() == self.spec_sessions(),
            ({
                let s = p.spec_sessions().last();
                &&& s.is_loop_interpolation
                &&& s.duration == ZERO_TIME
                &&& s.prev_progress == ZERO_TIME
                &&& s.progress == ZERO_TIME
                &&& s.playback == TimelinePlayback::Stop
                &&& s.play_duration == TimelineDuration::Original
                &&& s.anim_handle == anim_handle
                &&& s.spec_binded() == Seq::<TimelineTargetBinded>::empty()
            }),
            p.spec_shortcut() == self.spec_shortcut(),
            p.spec_lazy_play() == self.spec_lazy_play(),
            self.well_formed() ==> p.well_formed(),
    {
        let mut p = self;
        p.sessions.push(TimelineSession::new(anim_handle));
        assert(p.sessions@.drop_last() =~= self.sessions@);
        p
    }

    /// The sessions.
    pub fn sessions(&self) -> (r: &[TimelineSession<H>])
        ensures
            r@ == self.spec_sessions(),
    {
        self.sessions.as_slice()
    }

    /// The sessions, to change them.
    pub fn sessions_mut(&mut self) -> (r: &mut [TimelineSession<H>])
        ensures
            r@ == old(self).spec_sessions(),
            final(self).spec_sessions() == final(r)@,
            final(self).spec_shortcut() == old(self).spec_shortcut(),
            final(self).spec_lazy_play() == old(self).spec_lazy_play(),
    {
        self.sessions.as_mut_slice()
    }

    /// Index of the session named `name`.
    fn session_index(&self, name: &str) -> (r: Option<usize>)
        ensures
            r == match lookup(self.spec_shortcut(), name@) {
                Some(i) => Some(i),
                None => None::<usize>,
            },
    {
        proof {
            lemma_find_key_found(names_view(self.shortcut@), name@);
        }
        match find_entry(&self.shortcut, name) {
            Some(k) => Some(self.shortcut[k].1),
            None => None,
        }
    }

    /// Names the sessions in order, and carries out the plays that were asked
    /// for by a name that was not known then. The requests for play heads put
    /// at a fraction of the duration are returned, in the order of the plays.
    pub fn set_shortcuts(&mut self, shortcut: Vec<String>) -> (pending: Vec<PendingPosition>)
        requires
            forall|j: int| 0 <= j < old(self).spec_lazy_play().len() ==> (lookup(
                shortcuts_after(old(self).spec_shortcut(), shortcut@),
                (#[trigger] old(self).spec_lazy_play()[j]).0,
            ) matches Some(i) ==> i < old(self).spec_sessions().len()),
        ensures
            final(self).spec_shortcut() == shortcuts_after(old(self).spec_shortcut(), shortcut@),
            final(self).spec_lazy_play() == old(self).spec_lazy_play(),
            final(self).spec_sessions() == sessions_after_lazy(
                old(self).spec_sessions(),
                final(self).spec_shortcut(),
                old(self).spec_lazy_play(),
            ),
            pending@ == pending_after_lazy(final(self).spec_shortcut(), old(self).spec_lazy_play()),
            old(self).well_formed() && shortcut@.len() <= old(self).spec_sessions().len() ==> final(self).well_formed(),
    {
        proof {
            if old(self).names_in_range() && shortcut@.len() <= old(self).spec_sessions().len() {
                lemma_shortcuts_in_range(old(self).spec_shortcut(), shortcut@, old(self).spec_sessions().len());
            }
            lemma_lazy_len(old(self).spec_sessions(), shortcuts_after(old(self).spec_shortcut(), shortcut@), old(self).spec_lazy_play());
        }
        let mut idx: usize = 0;
        while idx < shortcut.len()
            invariant
                0 <= idx <= shortcut@.len(),
                names_view(self.shortcut@) == shortcuts_after(old(self).spec_shortcut(), shortcut@.take(idx as int)),
                self.sessions@ == old(self).sessions@,
                self.lazy_play@ == old(self).lazy_play@,
            decreases shortcut@.len() - idx,
        {
            let name = shortcut[idx].clone();
            insert_entry(&mut self.shortcut, name, idx);
            assert(shortcut@.take(idx + 1).drop_last() =~= shortcut@.take(idx as int));
            idx = idx + 1;
        }
        assert(shortcut@.take(shortcut@.len() as int) =~= shortcut@);
        let mut pending: Vec<PendingPosition> = Vec::new();
        let mut j: usize = 0;
        while j < self.lazy_play.len()
            invariant
                0 <= j <= self.lazy_play@.len(),
                self.lazy_play@ == old(self).lazy_play@,
                names_view(self.shortcut@) == shortcuts_after(old(self).spec_shortcut(), shortcut@),
                self.sessions@ == sessions_after_lazy(old(self).sessions@, names_view(self.shortcut@), names_view(self.lazy_play@).take(j as int)),
                self.sessions@.len() == old(self).sessions@.len(),
                pending@ == pending_after_lazy(names_view(self.shortcut@), names_view(self.lazy_play@).take(j as int)),
                forall|k: int| 0 <= k < old(self).spec_lazy_play().len() ==> (lookup(
                    shortcuts_after(old(self).spec_shortcut(), shortcut@),
                    (#[trigger] old(self).spec_lazy_play()[k]).0,
                ) matches Some(i) ==> i < old(self).spec_sessions().len()),
            decreases self.lazy_play@.len() - j,
        {
            let ghost lazy_j = names_view(self.lazy_play@).take(j + 1);
            assert(lazy_j.drop_last() =~= names_view(self.lazy_play@).take(j as int));
            assert(lazy_j.last() == names_view(self.lazy_play@)[j as int]);
            let found = self.session_index(self.lazy_play[j].0.as_str());
            assert(old(self).spec_lazy_play()[j as int] == names_view(self.lazy_play@)[j as int]);
            if let Some(i) = found {
                assert(i < self.sessions@.len());
                let option = self.lazy_play[j].1.duplicate();
                let r = self.sessions[i].play(option);
                if let Some(ratio) = r {
                    pending.push(PendingPosition { session: i, ratio });
                }
            }
            j = j + 1;
        }
        assert(names_view(self.lazy_play@).take(self.lazy_play@.len() as int) =~= names_view(self.lazy_play@));
        pending
    }

    /// Plays the session named `name` with the options, and returns its
    /// playback before playing; for a name that is not known yet, keeps the
    /// options and plays it when the name is set by `set_shortcuts`. A request
    /// for a play head put at a fraction of the duration is returned too.
    pub fn play(&mut self, name: &str, option: TimelinePlayOption) -> (r: (Option<TimelinePlayback>, Option<PendingPosition>))
        requires
            lookup(old(self).spec_shortcut(), name@) matches Some(i) ==> i < old(self).spec_sessions().len(),
        ensures
            final(self).spec_shortcut() == old(self).spec_shortcut(),
            match lookup(old(self).spec_shortcut(), name@) {
                Some(i) => {
                    &&& final(self).spec_sessions() == old(self).spec_sessions().update(
                        i as int,
                        played(old(self).spec_sessions()[i as int], option),
                    )
                    &&& final(self).spec_lazy_play() == old(self).spec_lazy_play()
                    &&& r.0 == Some(old(self).spec_sessions()[i as int].playback)
                    &&& r.1 == match pending_after_play(option) {
                        Some(ratio) => Some(PendingPosition { session: i, ratio }),
                        None => None,
                    }
                },
                None => {
                    &&& final(self).spec_sessions() == old(self).spec_sessions()
                    &&& final(self).spec_lazy_play() == insert_key(old(self).spec_lazy_play(), name@, option)
                    &&& r == (None::<TimelinePlayback>, None::<PendingPosition>)
                },
            },
            old(self).well_formed() ==> final(self).well_formed(),
    {
        proof {
            if names_distinct(old(self).spec_lazy_play()) {
                lemma_insert_keeps_distinct(old(self).spec_lazy_play(), name@, option);
            }
        }
        match self.session_index(name) {
            Some(i) => {
                let before = self.sessions[i].status();
                let pending = match self.sessions[i].play(option) {
                    Some(ratio) => Some(PendingPosition { session: i, ratio }),
                    None => None,
                };
                (Some(before), pending)
            },
            None => {
                insert_entry(&mut self.lazy_play, name.to_owned(), option);
                (None, None)
            },
        }
    }

    /// Stops the session named `name`, if there is one, as the session's
    /// `stop` does, and returns its playback before stopping.
    pub fn stop(&mut self, name: &str) -> (before: Option<TimelinePlayback>)
        requires
            lookup(old(self).spec_shortcut(), name@) matches Some(i) ==> i < old(self).spec_sessions().len(),
        ensures
            old(self).well_formed() ==> final(self).well_formed(),
            final(self).spec_shortcut() == old(self).spec_shortcut(),
            final(self).spec_lazy_play() == old(self).spec_lazy_play(),
            final(self).spec_sessions() == match lookup(old(self).spec_shortcut(), name@) {
                Some(i) => old(self).spec_sessions().update(
                    i as int,
                    with_playback(old(self).spec_sessions()[i as int], paused(old(self).spec_sessions()[i as int].playback)),
                ),
                None => old(self).spec_sessions(),
            },
            before == match lookup(old(self).spec_shortcut(), name@) {
                Some(i) => Some(old(self).spec_sessions()[i as int].playback),
                None => None::<TimelinePlayback>,
            },
    {
        match self.session_index(name) {
            Some(i) => {
                let before = self.sessions[i].status();
                self.sessions[i].stop();
                Some(before)
            },
            None => None,
        }
    }

    /// Pauses the session named `name`, if there is one; this is the
    /// session's `stop`.
    pub fn pause(&mut self, name: &str)
        requires
            lookup(old(self).spec_shortcut(), name@) matches Some(i) ==> i < old(self).spec_sessions().len(),
        ensures
            old(self).well_formed() ==> final(self).well_formed(),
            final(self).spec_shortcut() == old(self).spec_shortcut(),
            final(self).spec_lazy_play() == old(self).spec_lazy_play(),
            final(self).spec_sessions() == match lookup(old(self).spec_shortcut(), name@) {
                Some(i) => old(self).spec_sessions().update(
                    i as int,
                    with_playback(old(self).spec_sessions()[i as int], paused(old(self).spec_sessions()[i as int].playback)),
                ),
                None => old(self).spec_sessions(),
            },
    {
        if let Some(i) = self.session_index(name) {
            self.sessions[i].stop();
        }
    }

    /// Resumes the session named `name`, if there is one.
    pub fn resume(&mut self, name: &str)
        requires
            lookup(old(self).spec_shortcut(), name@) matches Some(i) ==> i < old(self).spec_sessions().len(),
        ensures
            old(self).well_formed() ==> final(self).well_formed(),
            final(self).spec_shortcut() == old(self).spec_shortcut(),
            final(self).spec_lazy_play() == old(self).spec_lazy_play(),
            final(self).spec_sessions() == match lookup(old(self).spec_shortcut(), name@) {
                Some(i) => old(self).spec_sessions().update(
                    i as int,
                    with_playback(old(self).spec_sessions()[i as int], resumed(old(self).spec_sessions()[i as int].playback)),
                ),
                None => old(self).spec_sessions(),
            },
    {
        if let Some(i) = self.session_index(name) {
            self.sessions[i].resume();
        }
    }

    /// Stops every session, as the session's `stop` does.
    pub fn stop_all(&mut self)
        ensures
            old(self).well_formed() ==> final(self).well_formed(),
            final(self).spec_shortcut() == old(self).spec_shortcut(),
            final(self).spec_lazy_play() == old(self).spec_lazy_play(),
            final(self).spec_sessions().len() == old(self).spec_sessions().len(),
            forall|i: int| 0 <= i < old(self).spec_sessions().len() ==> #[trigger] final(self).spec_sessions()[i]
                == with_playback(old(self).spec_sessions()[i], paused(old(self).spec_sessions()[i].playback)),
    {
        let mut i: usize = 0;
        while i < self.sessions.len()
            invariant
                0 <= i <= self.sessions@.len(),
                self.sessions@.len() == old(self).sessions@.len(),
                self.shortcut@ == old(self).shortcut@,
                self.lazy_play@ == old(self).lazy_play@,
                forall|k: int| 0 <= k < i ==> #[trigger] self.sessions@[k] == with_playback(old(self).sessions@[k], paused(old(self).sessions@[k].playback)),
                forall|k: int| i <= k < self.sessions@.len() ==> #[trigger] self.sessions@[k] == old(self).sessions@[k],
            decreases self.sessions@.len() - i,
        {
            self.sessions[i].stop();
            i = i + 1;
        }
        assert(self.spec_shortcut() == old(self).spec_shortcut());
        assert(self.spec_sessions().len() == old(self).spec_sessions().len());
    }

    /// Resumes every session.
    pub fn resume_all(&mut self)
        ensures
            old(self).well_formed() ==> final(self).well_formed(),
            final(self).spec_shortcut() == old(self).spec_shortcut(),
            final(self).spec_lazy_play() == old(self).spec_lazy_play(),
            final(self).spec_sessions().len() == old(self).spec_sessions().len(),
            forall|i: int| 0 <= i < old(self).spec_sessions().len() ==> #[trigger] final(self).spec_sessions()[i]
                == with_playback(old(self).spec_sessions()[i], resumed(old(self).spec_sessions()[i].playback)),
    {
        let mut i: usize = 0;
        while i < self.sessions.len()
            invariant
                0 <= i <= self.sessions@.len(),
                self.sessions@.len() == old(self).sessions@.len(),
                self.shortcut@ == old(self).shortcut@,
                self.lazy_play@ == old(self).lazy_play@,
                forall|k: int| 0 <= k < i ==> #[trigger] self.sessions@[k] == with_playback(old(self).sessions@[k], resumed(old(self).sessions@[k].playback)),
                forall|k: int| i <= k < self.sessions@.len() ==> #[trigger] self.sessions@[k] == old(self).sessions@[k],
            decreases self.sessions@.len() - i,
        {
            self.sessions[i].resume();
            i = i + 1;
        }
        assert(self.spec_shortcut() == old(self).spec_shortcut());
        assert(self.spec_sessions().len() == old(self).spec_sessions().len());
    }

    /// The name of each named session with its playback, in the order the
    /// names were first set.
    pub fn playing_state(&self) -> (r: Vec<(&str, TimelinePlayback)>)
        requires
            self.names_in_range(),
        ensures
            r@.len() == self.spec_shortcut().len(),
            forall|k: int| 0 <= k < r@.len() ==> {
                &&& (#[trigger] r@[k]).0@ == self.spec_shortcut()[k].0
                &&& r@[k].1 == self.spec_sessions()[self.spec_shortcut()[k].1 as int].playback
            },
    {
        let mut r: Vec<(&str, TimelinePlayback)> = Vec::new();
        let mut k: usize = 0;
        while k < self.shortcut.len()
            invariant
                0 <= k <= self.shortcut@.len(),
                r@.len() == k,
                forall|m: int| 0 <= m < self.spec_shortcut().len() ==> (#[trigger] self.spec_shortcut()[m]).1 < self.spec_sessions().len(),
                forall|m: int| 0 <= m < k ==> {
                    &&& (#[trigger] r@[m]).0@ == self.spec_shortcut()[m].0
                    &&& r@[m].1 == self.spec_sessions()[self.spec_shortcut()[m].1 as int].playback
                },
            decreases self.shortcut@.len() - k,
        {
            let entry = &self.shortcut[k];
            assert(self.spec_shortcut()[k as int] == (entry.0@, entry.1));
            let playback = self.sessions[entry.1].playback.duplicate();
            r.push((entry.0.as_str(), playback));
            k = k + 1;
        }
        r
    }
}


/// Resuming a pause gives back the playback that was paused.
pub proof fn lemma_resume_after_pause(p: TimelinePlayback)
    requires
        !(p is Pause),
    ensures
        resumed(paused(p)) == p,
{
}

/// Resuming a stopped session goes on from where it stopped: stopping and
/// then resuming a session that was not paused gives it back unchanged.
pub proof fn lemma_resume_after_stop<H>(s: TimelineSession<H>)
    requires
        !(s.playback is Pause),
    ensures
        ({
            let stopped = with_playback(s, paused(s.playback));
            with_playback(stopped, resumed(stopped.playback)) == s
        }),
{
}

/// A step is carried out once: the update that carries it out moves the play
/// head by the step and stops the session, and the next update holds it.
pub proof fn lemma_step_once<H>(s: TimelineSession<H>)
    requires
        s.playback is StepByRate || s.playback is StepByTime,
    ensures
        spec_time_update(s.playback) != TimeUpdate::Hold,
        updated(s).playback == TimelinePlayback::Stop,
        !updated(s).playback.spec_is_playing(),
        spec_time_update(updated(s).playback) == TimeUpdate::Hold,
        updated(updated(s)).playback == TimelinePlayback::Stop,
{
}

/// A playback plays unless it is a pause or a stop: forward, backward, their
/// loops and both steps play, a pause and a stop do not.
pub proof fn lemma_which_playbacks_play(r: u32, t: u32, inner: TimelinePlayback)
    ensures
        TimelinePlayback::Forward.spec_is_playing(),
        TimelinePlayback::ForwardLoop.spec_is_playing(),
        TimelinePlayback::Backward.spec_is_playing(),
        TimelinePlayback::BackwardLoop.spec_is_playing(),
        TimelinePlayback::StepByRate(r).spec_is_playing(),
        TimelinePlayback::StepByTime(t).spec_is_playing(),
        !TimelinePlayback::Pause(Box::new(inner)).spec_is_playing(),
        !TimelinePlayback::Stop.spec_is_playing(),
{
}

/// A session played with options that give a playback plays exactly when
/// that playback is neither a pause nor a stop; with none it plays (forward
/// in a loop).
pub proof fn lemma_played_session_plays<H>(s: TimelineSession<H>, option: TimelinePlayOption)
    ensures
        match option.spec_playback() {
            Some(p) => played(s, option).playback.spec_is_playing() == !(p is Pause || p is Stop),
            None => played(s, option).playback == TimelinePlayback::ForwardLoop
                && played(s, option).playback.spec_is_playing(),
        },
{
}

/// Pausing twice is pausing once.
pub proof fn lemma_pause_idempotent(p: TimelinePlayback)
    ensures
        paused(paused(p)) == paused(p),
{
}

/// A paused or stopped session is not playing; resuming a pause of a playing
/// session makes it play again.
pub proof fn lemma_pause_stop_not_playing(p: TimelinePlayback)
    ensures
        !paused(p).spec_is_playing(),
        !TimelinePlayback::Stop.spec_is_playing(),
        p.spec_is_playing() ==> resumed(paused(p)).spec_is_playing(),
{
}

/// Resuming a session that is not paused leaves it as it was.
pub proof fn lemma_resume_without_pause<H>(s: TimelineSession<H>)
    requires
        !(s.playback is Pause),
    ensures
        with_playback(s, resumed(s.playback)) == s,
{
}

/// After `play` a session plays unless the options ask for a paused or
/// stopped playback, and it starts at time zero unless the options give an
/// absolute start.
pub proof fn lemma_play_starts<H>(s: TimelineSession<H>, option: TimelinePlayOption)
    ensures
        played(s, option).playback.spec_is_playing() <==> match option.spec_playback() {
            Some(p) => p.spec_is_playing(),
            None => true,
        },
        !(option.spec_position() matches Some(TimelinePosition::Absolute(_))) ==> played(s, option).progress == ZERO_TIME,
{
}

/// No two entries share a name.
pub open spec fn names_distinct<V>(list: Seq<(Seq<char>, V)>) -> bool {
    forall|a: int, b: int| 0 <= a < b < list.len() ==> (#[trigger] list[a]).0 != (#[trigger] list[b]).0
}

/// Sessions that no deferred play names are left as they were.
proof fn lemma_lazy_untouched<H>(
    sessions: Seq<TimelineSession<H>>,
    shortcut: Seq<(Seq<char>, usize)>,
    lazy: Seq<(Seq<char>, TimelinePlayOption)>,
    i: usize,
)
    requires
        0 <= i < sessions.len(),
        forall|j: int| 0 <= j < lazy.len() ==> lookup(shortcut, (#[trigger] lazy[j]).0) != Some(i),
    ensures
        sessions_after_lazy(sessions, shortcut, lazy).len() == sessions.len(),
        sessions_after_lazy(sessions, shortcut, lazy)[i as int] == sessions[i as int],
    decreases lazy.len(),
{
    if lazy.len() > 0 {
        let init = lazy.drop_last();
        assert forall|j: int| 0 <= j < init.len() implies lookup(shortcut, (#[trigger] init[j]).0) != Some(i) by {
            assert(init[j] == lazy[j]);
        }
        lemma_lazy_untouched(sessions, shortcut, init, i);
        assert(lookup(shortcut, lazy[lazy.len() - 1].0) != Some(i));
    }
}

/// The sessions keep their number through the deferred plays.
proof fn lemma_lazy_len<H>(
    sessions: Seq<TimelineSession<H>>,
    shortcut: Seq<(Seq<char>, usize)>,
    lazy: Seq<(Seq<char>, TimelinePlayOption)>,
)
    ensures
        sessions_after_lazy(sessions, shortcut, lazy).len() == sessions.len(),
    decreases lazy.len(),
{
    if lazy.len() > 0 {
        lemma_lazy_len(sessions, shortcut, lazy.drop_last());
    }
}

/// A play asked for by a name that is not known yet is carried out on the
/// session that the name is later given to, when no other deferred play goes
/// to that session.
pub proof fn lemma_deferred_play<H>(
    sessions: Seq<TimelineSession<H>>,
    shortcut: Seq<(Seq<char>, usize)>,
    lazy: Seq<(Seq<char>, TimelinePlayOption)>,
    name: Seq<char>,
    option: TimelinePlayOption,
    i: usize,
)
    requires
        names_distinct(lazy),
        lookup(lazy, name) == Some(option),
        lookup(shortcut, name) == Some(i),
        0 <= i < sessions.len(),
        forall|j: int| 0 <= j < lazy.len() && (#[trigger] lazy[j]).0 != name ==> lookup(shortcut, lazy[j].0) != Some(i),
    ensures
        sessions_after_lazy(sessions, shortcut, lazy)[i as int] == played(sessions[i as int], option),
    decreases lazy.len(),
{
    crate::entries::lemma_find_key_found(lazy, name);
    let last = lazy.len() - 1;
    let init = lazy.drop_last();
    lemma_lazy_len(sessions, shortcut, init);
    if lazy[last].0 == name {
        // the entry for `name` is the last one; none before it goes to session i
        assert forall|j: int| 0 <= j < init.len() implies lookup(shortcut, (#[trigger] init[j]).0) != Some(i) by {
            assert(init[j] == lazy[j]);
            assert(lazy[j].0 != lazy[last].0);
        }
        lemma_lazy_untouched(sessions, shortcut, init, i);
        assert forall|j: int| 0 <= j < last implies (#[trigger] lazy[j]).0 != name by {
            assert(lazy[j].0 != lazy[last].0);
        }
        crate::entries::lemma_find_key(lazy, name, last);
        assert(lazy.last() == lazy[last]);
    } else {
        assert(lookup(shortcut, lazy[last].0) != Some(i));
        match crate::entries::find_key(lazy, name) {
            Some(k) => {
                assert(k != last);
                assert forall|j: int| 0 <= j < k implies (#[trigger] init[j]).0 != name by {
                    assert(init[j] == lazy[j]);
                }
                assert(init[k] == lazy[k]);
                crate::entries::lemma_find_key(init, name, k);
            },
            None => {},
        }
        assert(names_distinct(init)) by {
            assert forall|a: int, b: int| 0 <= a < b < init.len() implies (#[trigger] init[a]).0 != (#[trigger] init[b]).0 by {
                assert(init[a] == lazy[a]);
                assert(init[b] == lazy[b]);
            }
        }
        assert forall|j: int| 0 <= j < init.len() && (#[trigger] init[j]).0 != name implies lookup(shortcut, init[j].0) != Some(i) by {
            assert(init[j] == lazy[j]);
        }
        lemma_deferred_play(sessions, shortcut, init, name, option, i);
    }
}

/// Setting a name keeps the names of a list apart.
pub proof fn lemma_insert_keeps_distinct<V>(list: Seq<(Seq<char>, V)>, key: Seq<char>, value: V)
    requires
        names_distinct(list),
    ensures
        names_distinct(insert_key(list, key, value)),
{
    crate::entries::lemma_find_key_found(list, key);
    let after = insert_key(list, key, value);
    match crate::entries::find_key(list, key) {
        Some(i) => {
            assert forall|a: int, b: int| 0 <= a < b < after.len() implies (#[trigger] after[a]).0 != (#[trigger] after[b]).0 by {
                assert(after[a].0 == list[a].0);
                assert(after[b].0 == list[b].0);
            }
        },
        None => {
            assert forall|a: int, b: int| 0 <= a < b < after.len() implies (#[trigger] after[a]).0 != (#[trigger] after[b]).0 by {
                assert(after[a] == list[a]);
                if b < list.len() {
                    assert(after[b] == list[b]);
                }
            }
        },
    }
}

/// A name set by `set_shortcuts` on a list without names stands for the
/// index of its last occurrence.
proof fn lemma_shortcut_lookup(names: Seq<String>, x: Seq<char>)
    requires
        names.len() <= usize::MAX,
    ensures
        lookup(shortcuts_after(Seq::empty(), names), x) matches Some(k) ==> k < names.len() && names[k as int]@ == x,
    decreases names.len(),
{
    if names.len() > 0 {
        let init = names.drop_last();
        crate::entries::lemma_lookup_insert(shortcuts_after(Seq::empty(), init), names.last()@, (names.len() - 1) as usize, x);
        lemma_shortcut_lookup(init, x);
    }
}

/// Naming the sessions of a player without names by names that are all
/// different gives each name the index of its place: afterwards a play or a
/// stop by the name at `k` acts on session `k`.
pub proof fn lemma_names_find_their_sessions(names: Seq<String>, k: int)
    requires
        names.len() <= usize::MAX,
        0 <= k < names.len(),
        forall|a: int, b: int| 0 <= a < b < names.len() ==> (#[trigger] names[a])@ != (#[trigger] names[b])@,
    ensures
        lookup(shortcuts_after(Seq::empty(), names), names[k]@) == Some(k as usize),
    decreases names.len(),
{
    let init = names.drop_last();
    crate::entries::lemma_lookup_insert(shortcuts_after(Seq::empty(), init), names.last()@, (names.len() - 1) as usize, names[k]@);
    if k < names.len() - 1 {
        assert(names[k]@ != names[names.len() - 1]@);
        assert(init[k] == names[k]);
        assert forall|a: int, b: int| 0 <= a < b < init.len() implies (#[trigger] init[a])@ != (#[trigger] init[b])@ by {
            assert(init[a] == names[a]);
            assert(init[b] == names[b]);
        }
        lemma_names_find_their_sessions(init, k);
    }
}

/// Names set to indices below `n` keep every index of the list below `n`.
pub proof fn lemma_shortcuts_in_range(list: Seq<(Seq<char>, usize)>, names: Seq<String>, n: nat)
    requires
        names.len() <= n,
        forall|k: int| 0 <= k < list.len() ==> (#[trigger] list[k]).1 < n,
    ensures
        forall|k: int| 0 <= k < shortcuts_after(list, names).len() ==> (#[trigger] shortcuts_after(list, names)[k]).1 < n,
    decreases names.len(),
{
    if names.len() > 0 {
        let init = names.drop_last();
        lemma_shortcuts_in_range(list, init, n);
        let before = shortcuts_after(list, init);
        crate::entries::lemma_find_key_found(before, names.last()@);
        let after = shortcuts_after(list, names);
        assert(after == insert_key(before, names.last()@, (names.len() - 1) as usize));
        assert forall|k: int| 0 <= k < after.len() implies (#[trigger] after[k]).1 < n by {
            if k < before.len() {
                assert(after[k] == before[k] || after[k].1 == (names.len() - 1) as usize);
            }
        }
    }
}

/// A play asked for by name before the sessions were named is carried out
/// by `set_shortcuts` on the session that the name is given to: with names
/// that are all different and deferred plays under different names, the
/// session at the name's index is that session played with the deferred
/// options.
pub proof fn lemma_naming_plays_deferred<H>(
    sessions: Seq<TimelineSession<H>>,
    lazy: Seq<(Seq<char>, TimelinePlayOption)>,
    names: Seq<String>,
    i: int,
)
    requires
        names_distinct(lazy),
        forall|a: int, b: int| 0 <= a < b < names.len() ==> (#[trigger] names[a])@ != (#[trigger] names[b])@,
        0 <= i < names.len() <= sessions.len(),
        names.len() <= usize::MAX,
        lookup(lazy, names[i]@) is Some,
    ensures
        sessions_after_lazy(sessions, shortcuts_after(Seq::empty(), names), lazy)[i] == played(
            sessions[i],
            lookup(lazy, names[i]@)->Some_0,
        ),
{
    let shortcut = shortcuts_after(Seq::empty(), names);
    lemma_names_find_their_sessions(names, i);
    assert forall|j: int| 0 <= j < lazy.len() && (#[trigger] lazy[j]).0 != names[i]@ implies lookup(shortcut, lazy[j].0) != Some(i as usize) by {
        lemma_shortcut_lookup(names, lazy[j].0);
    }
    lemma_deferred_play(sessions, shortcut, lazy, names[i]@, lookup(lazy, names[i]@)->Some_0, i as usize);
}

/// A well-formed player meets what its operations by name require.
pub proof fn lemma_well_formed_names<H>(p: TimelinePlayer<H>, name: Seq<char>)
    requires
        p.well_formed(),
    ensures
        lookup(p.spec_shortcut(), name) matches Some(i) ==> i < p.spec_sessions().len(),
{
    crate::entries::lemma_find_key_found(p.spec_shortcut(), name);
}

/// A well-formed player meets what `set_shortcuts` requires when it is
/// given no more names than it has sessions.
pub proof fn lemma_set_shortcuts_requires<H>(p: TimelinePlayer<H>, names: Seq<String>)
    requires
        p.well_formed(),
        names.len() <= p.spec_sessions().len(),
    ensures
        forall|j: int| 0 <= j < p.spec_lazy_play().len() ==> (lookup(
            shortcuts_after(p.spec_shortcut(), names),
            (#[trigger] p.spec_lazy_play()[j]).0,
        ) matches Some(i) ==> i < p.spec_sessions().len()),
{
    let after = shortcuts_after(p.spec_shortcut(), names);
    lemma_shortcuts_in_range(p.spec_shortcut(), names, p.spec_sessions().len());
    assert forall|j: int| 0 <= j < p.spec_lazy_play().len() implies (lookup(
        after,
        (#[trigger] p.spec_lazy_play()[j]).0,
    ) matches Some(i) ==> i < p.spec_sessions().len()) by {
        crate::entries::lemma_find_key_found(after, p.spec_lazy_play()[j].0);
    }
}

/// Deferred plays that differ only in plays for session `i` leave every
/// other session the same.
proof fn lemma_lazy_same_elsewhere<H>(
    sessions: Seq<TimelineSession<H>>,
    shortcut: Seq<(Seq<char>, usize)>,
    a: Seq<(Seq<char>, TimelinePlayOption)>,
    b: Seq<(Seq<char>, TimelinePlayOption)>,
    i: usize,
)
    requires
        a.len() == b.len(),
        forall|m: int| 0 <= m < a.len() ==> (#[trigger] a[m]).0 == b[m].0,
        forall|m: int| 0 <= m < a.len() && (#[trigger] a[m]) != b[m] ==> lookup(shortcut, a[m].0) == Some(i),
    ensures
        forall|j: int| 0 <= j < sessions.len() && j != i ==> #[trigger] sessions_after_lazy(sessions, shortcut, a)[j]
            == sessions_after_lazy(sessions, shortcut, b)[j],
    decreases a.len(),
{
    if a.len() > 0 {
        let ia = a.drop_last();
        let ib = b.drop_last();
        assert forall|m: int| 0 <= m < ia.len() implies (#[trigger] ia[m]).0 == ib[m].0 by {
            assert(ia[m] == a[m] && ib[m] == b[m]);
        }
        assert forall|m: int| 0 <= m < ia.len() && (#[trigger] ia[m]) != ib[m] implies lookup(shortcut, ia[m].0) == Some(i) by {
            assert(ia[m] == a[m] && ib[m] == b[m]);
        }
        lemma_lazy_same_elsewhere(sessions, shortcut, ia, ib, i);
        lemma_lazy_len(sessions, shortcut, ia);
        lemma_lazy_len(sessions, shortcut, ib);
        let last = a.len() - 1;
        assert(a.last() == a[last] && b.last() == b[last]);
    }
}

/// Playing a session by a name that is not known yet and then naming the
/// sessions of a player without names gives the same sessions as naming them
/// first and playing by the name after: in both orders the session that the
/// name is given to is played with the options once the other deferred plays
/// are carried out, and every other session is as the deferred plays leave
/// it. Where a play under the same name was deferred before, the later
/// options must give a play duration or the earlier ones none (otherwise
/// the earlier duration stays in one order only).
pub proof fn lemma_play_then_name_commutes<H>(
    sessions: Seq<TimelineSession<H>>,
    lazy: Seq<(Seq<char>, TimelinePlayOption)>,
    names: Seq<String>,
    i: int,
    option: TimelinePlayOption,
)
    requires
        names_distinct(lazy),
        forall|a: int, b: int| 0 <= a < b < names.len() ==> (#[trigger] names[a])@ != (#[trigger] names[b])@,
        0 <= i < names.len() <= sessions.len(),
        names.len() <= usize::MAX,
        lookup(lazy, names[i]@) matches Some(earlier) ==> (option.spec_duration() is Some
            || earlier.spec_duration() is None),
    ensures
        lookup(Seq::<(Seq<char>, usize)>::empty(), names[i]@) is None,
        lookup(shortcuts_after(Seq::empty(), names), names[i]@) == Some(i as usize),
        sessions_after_lazy(sessions, shortcuts_after(Seq::empty(), names), insert_key(lazy, names[i]@, option))
            == sessions_after_lazy(sessions, shortcuts_after(Seq::empty(), names), lazy).update(
            i,
            played(sessions_after_lazy(sessions, shortcuts_after(Seq::empty(), names), lazy)[i], option),
        ),
{
    let shortcut = shortcuts_after(Seq::empty(), names);
    let name = names[i]@;
    let later = insert_key(lazy, name, option);
    let named_first = sessions_after_lazy(sessions, shortcut, lazy);
    crate::entries::lemma_find_key_found(Seq::<(Seq<char>, usize)>::empty(), name);
    lemma_names_find_their_sessions(names, i);
    lemma_lazy_len(sessions, shortcut, lazy);
    lemma_lazy_len(sessions, shortcut, later);
    crate::entries::lemma_find_key_found(lazy, name);
    match crate::entries::find_key(lazy, name) {
        None => {
            assert(later.drop_last() =~= lazy);
            assert(later.last() == (name, option));
        },
        Some(k) => {
            let earlier = lazy[k].1;
            assert(lookup(lazy, name) == Some(earlier));
            lemma_insert_keeps_distinct(lazy, name, option);
            crate::entries::lemma_lookup_insert(lazy, name, option, name);
            lemma_naming_plays_deferred(sessions, later, names, i);
            lemma_naming_plays_deferred(sessions, lazy, names, i);
            assert forall|m: int| 0 <= m < later.len() && (#[trigger] later[m]) != lazy[m] implies lookup(shortcut, later[m].0) == Some(i as usize) by {
                assert(m == k);
            }
            lemma_lazy_same_elsewhere(sessions, shortcut, later, lazy, i as usize);
            let lhs = sessions_after_lazy(sessions, shortcut, later);
            let rhs = named_first.update(i, played(named_first[i], option));
            assert(lhs[i] == rhs[i]);
            assert(lhs =~= rhs);
        },
    }
}

} // verus!
