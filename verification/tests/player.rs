use bevy_timeline::player::{
    PendingPosition, TimelineDuration, TimelinePlayOption, TimelinePlayback, TimelinePlayer, TimelinePosition,
    TimelineSession, TimelineTargetBinded, TimeUpdate,
};

fn is_pause_of(p: &TimelinePlayback, inner: fn(&TimelinePlayback) -> bool) -> bool {
    match p {
        TimelinePlayback::Pause(b) => inner(b),
        _ => false,
    }
}

#[test]
fn new_session_is_stopped() {
    let s = TimelineSession::new(7u32);
    assert!(s.is_loop_interpolation);
    assert_eq!(s.duration, 0);
    assert_eq!(s.progress, 0);
    assert_eq!(s.prev_progress, 0);
    assert!(matches!(s.playback, TimelinePlayback::Stop));
    assert_eq!(s.play_duration, TimelineDuration::Original);
    assert_eq!(s.anim_handle, 7);
    assert!(s.binded_targets().is_empty());
    assert!(!s.is_playing());
}

#[test]
fn play_defaults_to_forward_loop_from_zero() {
    let mut s = TimelineSession::new(0u32);
    s.progress = 5.0f32.to_bits();
    let pending = s.play(TimelinePlayOption::new());
    assert_eq!(pending, None);
    assert!(matches!(s.playback, TimelinePlayback::ForwardLoop));
    assert_eq!(s.progress, 0);
    assert!(s.is_playing());
}

#[test]
fn play_with_options() {
    let mut s = TimelineSession::new(0u32);
    let option = TimelinePlayOption::new()
        .set_position(TimelinePosition::Absolute(1.5f32.to_bits()))
        .set_playback(TimelinePlayback::Backward)
        .set_duration(TimelineDuration::TimeScale(2.0f32.to_bits()));
    assert_eq!(s.play(option), None);
    assert!(matches!(s.playback, TimelinePlayback::Backward));
    assert_eq!(s.progress, 1.5f32.to_bits());
    // a normalized start is left to the caller, who scales it by the duration
    let option = TimelinePlayOption::new().set_position(TimelinePosition::Normalized(0.5f32.to_bits()));
    assert_eq!(s.play(option), Some(0.5f32.to_bits()));
    assert_eq!(s.progress, 0);
    assert!(matches!(s.playback, TimelinePlayback::ForwardLoop));
}

#[test]
fn pause_then_resume_restores_the_playback() {
    let mut s = TimelineSession::new(0u32);
    s.play(TimelinePlayOption::new().set_playback(TimelinePlayback::StepByRate(0.25f32.to_bits())));
    s.pause();
    assert!(!s.is_playing());
    assert!(is_pause_of(&s.status(), |p| matches!(p, TimelinePlayback::StepByRate(r) if *r == 0.25f32.to_bits())));
    // pausing twice keeps the first pause
    s.pause();
    assert!(is_pause_of(&s.status(), |p| matches!(p, TimelinePlayback::StepByRate(_))));
    s.resume();
    assert!(matches!(s.status(), TimelinePlayback::StepByRate(r) if r == 0.25f32.to_bits()));
    assert!(s.is_playing());
    // resume without a pause changes nothing
    s.resume();
    assert!(matches!(s.status(), TimelinePlayback::StepByRate(_)));
    // stopping keeps the playback, so that resuming goes on from there
    s.stop();
    assert!(is_pause_of(&s.status(), |p| matches!(p, TimelinePlayback::StepByRate(_))));
    assert!(!s.is_playing());
    s.resume();
    assert!(matches!(s.status(), TimelinePlayback::StepByRate(_)));
}

#[test]
fn entities_by_type() {
    let mut s = TimelineSession::new(0u32);
    s.set_binded(vec![
        TimelineTargetBinded { typ: "Scale", entity: 1, target_idx: 0 },
        TimelineTargetBinded { typ: "Rotation", entity: 2, target_idx: 1 },
        TimelineTargetBinded { typ: "Scale", entity: 3, target_idx: 2 },
    ]);
    let scales = s.get_entities("Scale");
    assert_eq!(scales.len(), 2);
    assert_eq!(scales[0].entity, 1);
    assert_eq!(scales[1].entity, 3);
    assert_eq!(scales[1].target_idx, 2);
    assert!(s.get_entities("Translation").is_empty());
    assert_eq!(s.binded_targets().len(), 3);
}

#[test]
fn defaults() {
    assert!(matches!(TimelinePlayback::default(), TimelinePlayback::ForwardLoop));
    assert_eq!(TimelineDuration::default(), TimelineDuration::Original);
    assert_eq!(TimelinePosition::default(), TimelinePosition::Absolute(0));
    let option = TimelinePlayOption::default();
    let mut s = TimelineSession::new(0u32);
    assert_eq!(s.play(option.clone()), None);
    assert!(matches!(s.playback, TimelinePlayback::ForwardLoop));
    let copy = TimelinePlayback::Pause(Box::new(TimelinePlayback::StepByTime(3))).clone();
    assert!(is_pause_of(&copy, |p| matches!(p, TimelinePlayback::StepByTime(3))));
}

fn player() -> TimelinePlayer<u32> {
    TimelinePlayer::new().create_session(10).create_session(20)
}

#[test]
fn player_finds_sessions_by_name() {
    let mut p = player();
    assert_eq!(p.sessions().len(), 2);
    assert_eq!(p.sessions()[1].anim_handle, 20);
    let pending = p.set_shortcuts(vec!["walk".to_string(), "run".to_string()]);
    assert!(pending.is_empty());
    let (before, pending) = p.play("run", TimelinePlayOption::new());
    assert!(matches!(before, Some(TimelinePlayback::Stop)));
    assert_eq!(pending, None);
    assert!(matches!(p.sessions()[1].playback, TimelinePlayback::ForwardLoop));
    assert!(matches!(p.sessions()[0].playback, TimelinePlayback::Stop));
    let state = p.playing_state();
    assert_eq!(state.len(), 2);
    assert_eq!(state[0].0, "walk");
    assert!(matches!(state[0].1, TimelinePlayback::Stop));
    assert_eq!(state[1].0, "run");
    assert!(matches!(state[1].1, TimelinePlayback::ForwardLoop));
    // pausing by name stops the session as `stop` does
    p.pause("run");
    assert!(is_pause_of(&p.sessions()[1].playback, |b| matches!(b, TimelinePlayback::ForwardLoop)));
    p.resume("run");
    assert!(matches!(p.sessions()[1].playback, TimelinePlayback::ForwardLoop));
    let (before, _) = p.play("walk", TimelinePlayOption::new().set_playback(TimelinePlayback::Forward));
    assert!(matches!(before, Some(TimelinePlayback::Stop)));
    let before = p.stop("walk");
    assert!(matches!(before, Some(TimelinePlayback::Forward)));
    assert!(is_pause_of(&p.sessions()[0].playback, |b| matches!(b, TimelinePlayback::Forward)));
    // names that are not known change nothing when stopping
    assert!(p.stop("jump").is_none());
    p.resume("jump");
    p.pause("jump");
    assert_eq!(p.sessions().len(), 2);
    assert!(matches!(p.sessions()[1].playback, TimelinePlayback::ForwardLoop));
}

#[test]
fn play_before_names_are_set_is_deferred() {
    let mut p = player();
    let option = TimelinePlayOption::new().set_position(TimelinePosition::Normalized(0.5f32.to_bits()));
    let (before, pending) = p.play("run", option);
    assert!(before.is_none() && pending.is_none());
    assert!(matches!(p.sessions()[1].playback, TimelinePlayback::Stop));
    p.play("fly", TimelinePlayOption::new());
    let pending = p.set_shortcuts(vec!["walk".to_string(), "run".to_string()]);
    assert!(matches!(p.sessions()[1].playback, TimelinePlayback::ForwardLoop));
    assert!(matches!(p.sessions()[0].playback, TimelinePlayback::Stop));
    assert_eq!(pending, vec![PendingPosition { session: 1, ratio: 0.5f32.to_bits() }]);
    // a later play by name goes straight to the session
    let (_, pending) = p.play("walk", TimelinePlayOption::new().set_position(TimelinePosition::Normalized(1.0f32.to_bits())));
    assert_eq!(pending, Some(PendingPosition { session: 0, ratio: 1.0f32.to_bits() }));
}

#[test]
fn stop_all_and_resume_all() {
    let mut p = player();
    p.set_shortcuts(vec!["walk".to_string(), "run".to_string()]);
    p.play("walk", TimelinePlayOption::new());
    p.play("run", TimelinePlayOption::new().set_playback(TimelinePlayback::Backward));
    for s in p.sessions_mut().iter_mut() {
        s.pause();
    }
    p.resume_all();
    assert!(matches!(p.sessions()[0].playback, TimelinePlayback::ForwardLoop));
    assert!(matches!(p.sessions()[1].playback, TimelinePlayback::Backward));
    p.stop_all();
    assert!(p.sessions().iter().all(|s| !s.is_playing()));
    p.resume_all();
    assert!(matches!(p.sessions()[0].playback, TimelinePlayback::ForwardLoop));
    assert!(matches!(p.sessions()[1].playback, TimelinePlayback::Backward));
    p.stop("walk");
    p.resume("walk");
    assert!(matches!(p.sessions()[0].playback, TimelinePlayback::ForwardLoop));
}

#[test]
fn later_shortcut_names_replace_earlier_indices() {
    let mut p = player();
    p.set_shortcuts(vec!["a".to_string(), "a".to_string()]);
    let state = p.playing_state();
    assert_eq!(state.len(), 1);
    p.play("a", TimelinePlayOption::new());
    assert!(matches!(p.sessions()[1].playback, TimelinePlayback::ForwardLoop));
    assert!(matches!(p.sessions()[0].playback, TimelinePlayback::Stop));
}

#[test]
fn update_plans_follow_the_playback() {
    let mut s = TimelineSession::new(0u32);
    s.progress = 1.0f32.to_bits();
    assert_eq!(s.plan_update_time(), TimeUpdate::Hold);
    assert_eq!(s.prev_progress, 1.0f32.to_bits());
    let cases = vec![
        (TimelinePlayback::Forward, TimeUpdate::AdvanceClamped),
        (TimelinePlayback::ForwardLoop, TimeUpdate::AdvanceWrapped),
        (TimelinePlayback::Backward, TimeUpdate::RewindClamped),
        (TimelinePlayback::BackwardLoop, TimeUpdate::RewindWrapped),
        (TimelinePlayback::Pause(Box::new(TimelinePlayback::Forward)), TimeUpdate::Hold),
    ];
    for (playback, plan) in cases {
        s.playback = playback.clone();
        assert_eq!(s.plan_update_time(), plan);
        assert_eq!(s.progress, 1.0f32.to_bits());
        assert_eq!(format!("{:?}", s.playback), format!("{:?}", playback));
    }
}

#[test]
fn a_step_advances_once_then_stops() {
    let mut s = TimelineSession::new(0u32);
    s.progress = 1.0f32.to_bits();
    s.playback = TimelinePlayback::StepByTime(2.5f32.to_bits());
    assert!(s.is_playing());
    assert_eq!(s.plan_update_time(), TimeUpdate::AdvanceBy(2.5f32.to_bits()));
    assert_eq!(s.prev_progress, 1.0f32.to_bits());
    assert_eq!(s.progress, 1.0f32.to_bits());
    assert!(matches!(s.playback, TimelinePlayback::Stop));
    assert!(!s.is_playing());
    assert_eq!(s.plan_update_time(), TimeUpdate::Hold);

    s.playback = TimelinePlayback::StepByRate(0.5f32.to_bits());
    assert_eq!(s.plan_update_time(), TimeUpdate::AdvanceByRate(0.5f32.to_bits()));
    assert!(matches!(s.playback, TimelinePlayback::Stop));
}

#[test]
fn play_sets_the_play_duration_when_given() {
    let mut s = TimelineSession::new(0u32);
    s.play(TimelinePlayOption::new().set_duration(TimelineDuration::TimeScale(2.0f32.to_bits())));
    assert_eq!(s.play_duration, TimelineDuration::TimeScale(2.0f32.to_bits()));
    s.play(TimelinePlayOption::new());
    assert_eq!(s.play_duration, TimelineDuration::TimeScale(2.0f32.to_bits()));
    s.play(TimelinePlayOption::new().set_duration(TimelineDuration::CropOrExtendAtEnd(3.0f32.to_bits())));
    assert_eq!(s.play_duration, TimelineDuration::CropOrExtendAtEnd(3.0f32.to_bits()));
}

#[test]
fn deferred_play_and_later_play_give_the_same_sessions() {
    let option = || {
        TimelinePlayOption::new()
            .set_position(TimelinePosition::Absolute(0.25f32.to_bits()))
            .set_playback(TimelinePlayback::Backward)
    };
    let names = || vec!["walk".to_string(), "run".to_string()];
    // a play by a name not known yet, then the names
    let mut first = player();
    first.play("run", option());
    first.set_shortcuts(names());
    // the names, then the play
    let mut second = player();
    second.set_shortcuts(names());
    second.play("run", option());
    for (a, b) in first.sessions().iter().zip(second.sessions().iter()) {
        assert_eq!(format!("{:?}", a.playback), format!("{:?}", b.playback));
        assert_eq!(a.progress, b.progress);
        assert_eq!(a.play_duration, b.play_duration);
    }
    assert!(matches!(first.sessions()[1].playback, TimelinePlayback::Backward));
    assert!(matches!(first.sessions()[0].playback, TimelinePlayback::Stop));
}
