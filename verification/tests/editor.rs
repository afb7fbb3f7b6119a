use bevy_timeline::editor::{
    click_selection, closest_marker, control_step, focus_change, handle_axis_locking, handle_rotation_axis, ControlKeys, ControlMode,
    ControlStep, FocusChange, LockAxis, RotationAxis, RotationMode, SelectionChange,
};
use bevy_timeline::material::{AlwaysOnTopExt, CompareFunction, DepthSettings};
use bevy_timeline::texture::{uv_debug_texture_data, TEXTURE_SIZE};

fn keys() -> ControlKeys {
    ControlKeys {
        shift: false,
        x_pressed: false,
        y_pressed: false,
        z_pressed: false,
        g_pressed: false,
        r_pressed: false,
        escape_pressed: false,
        enter_pressed: false,
        left_clicked: false,
        right_clicked: false,
    }
}

#[test]
fn lock_axis_constructors() {
    assert_eq!(LockAxis::all(), LockAxis { x: true, y: true, z: true });
    assert_eq!(LockAxis::none(), LockAxis { x: false, y: false, z: false });
    assert_eq!(LockAxis::default(), LockAxis::none());
    assert_eq!(LockAxis::only_x(), LockAxis { x: true, y: false, z: false });
    assert_eq!(LockAxis::only_y(), LockAxis { x: false, y: true, z: false });
    assert_eq!(LockAxis::only_z(), LockAxis { x: false, y: false, z: true });
    assert_eq!(LockAxis::except_x(), LockAxis { x: false, y: true, z: true });
    assert_eq!(LockAxis::except_y(), LockAxis { x: true, y: false, z: true });
    assert_eq!(LockAxis::except_z(), LockAxis { x: true, y: true, z: false });
}

#[test]
fn axis_keys_set_the_lock() {
    let mut lock = LockAxis::all();
    handle_axis_locking(&ControlKeys { y_pressed: true, ..keys() }, &mut lock);
    assert_eq!(lock, LockAxis::only_y());
    handle_axis_locking(&ControlKeys { z_pressed: true, shift: true, ..keys() }, &mut lock);
    assert_eq!(lock, LockAxis::except_z());
    // X wins over Y and Z in the same frame
    handle_axis_locking(&ControlKeys { x_pressed: true, y_pressed: true, z_pressed: true, ..keys() }, &mut lock);
    assert_eq!(lock, LockAxis::only_x());
    handle_axis_locking(&keys(), &mut lock);
    assert_eq!(lock, LockAxis::only_x());
}

#[test]
fn rotation_axis_cycles_with_x() {
    let x = ControlKeys { x_pressed: true, ..keys() };
    let shift_x = ControlKeys { x_pressed: true, shift: true, ..keys() };
    let mut axis = RotationAxis::default();
    assert_eq!(axis, RotationAxis::NoAxis);
    handle_rotation_axis(&x, &mut axis);
    assert_eq!(axis, RotationAxis::X(RotationMode::World));
    handle_rotation_axis(&x, &mut axis);
    assert_eq!(axis, RotationAxis::X(RotationMode::Local));
    handle_rotation_axis(&x, &mut axis);
    assert_eq!(axis, RotationAxis::NoAxis);
    handle_rotation_axis(&shift_x, &mut axis);
    assert_eq!(axis, RotationAxis::X(RotationMode::LockWorld));
    handle_rotation_axis(&shift_x, &mut axis);
    assert_eq!(axis, RotationAxis::Y(RotationMode::LockLocal));
    handle_rotation_axis(&x, &mut axis);
    assert_eq!(axis, RotationAxis::X(RotationMode::World));
    handle_rotation_axis(&shift_x, &mut axis);
    assert_eq!(axis, RotationAxis::NoAxis);
    handle_rotation_axis(&ControlKeys { y_pressed: true, ..keys() }, &mut axis);
    assert_eq!(axis, RotationAxis::NoAxis);
}

#[test]
fn g_starts_a_move_only_with_a_selection() {
    let g = ControlKeys { g_pressed: true, ..keys() };
    let step = control_step(ControlMode::Idle, &g, true);
    assert_eq!(
        step,
        ControlStep {
            next: ControlMode::Translating { lock_mode: LockAxis::all() },
            begin: true,
            apply: None,
            restore: false
        }
    );
    let step = control_step(ControlMode::Idle, &g, false);
    assert_eq!(step.next, ControlMode::Idle);
    assert!(!step.begin);
    let r = ControlKeys { r_pressed: true, ..keys() };
    let step = control_step(ControlMode::Idle, &r, true);
    assert_eq!(step.next, ControlMode::Rotating { axis_mode: RotationAxis::NoAxis, trackball_mode: false });
    assert!(step.begin);
    assert!(control_step(ControlMode::Idle, &r, false).next.is_none());
}

#[test]
fn moves_are_applied_until_cancelled_or_confirmed() {
    let moving = ControlMode::Translating { lock_mode: LockAxis::all() };
    let step = control_step(moving, &ControlKeys { x_pressed: true, ..keys() }, true);
    let updated = ControlMode::Translating { lock_mode: LockAxis::only_x() };
    assert_eq!(step, ControlStep { next: updated, begin: false, apply: Some(updated), restore: false });
    let step = control_step(updated, &ControlKeys { escape_pressed: true, ..keys() }, true);
    assert_eq!(step, ControlStep { next: ControlMode::Idle, begin: false, apply: Some(updated), restore: true });
    let step = control_step(updated, &ControlKeys { right_clicked: true, left_clicked: true, ..keys() }, true);
    assert!(step.restore);
    let step = control_step(updated, &ControlKeys { enter_pressed: true, ..keys() }, true);
    assert_eq!(step, ControlStep { next: ControlMode::Idle, begin: false, apply: Some(updated), restore: false });
}

#[test]
fn r_toggles_the_trackball_while_turning() {
    let turning = ControlMode::Rotating { axis_mode: RotationAxis::NoAxis, trackball_mode: false };
    let step = control_step(turning, &ControlKeys { r_pressed: true, ..keys() }, true);
    assert_eq!(step.next, ControlMode::Rotating { axis_mode: RotationAxis::NoAxis, trackball_mode: true });
    let step = control_step(step.next, &ControlKeys { x_pressed: true, left_clicked: true, ..keys() }, true);
    assert_eq!(step.next, ControlMode::Idle);
    assert_eq!(
        step.apply,
        Some(ControlMode::Rotating { axis_mode: RotationAxis::X(RotationMode::World), trackball_mode: true })
    );
    assert!(!step.restore);
}

#[test]
fn clicks_change_the_selection() {
    assert_eq!(click_selection(Some(4), true, false, true), SelectionChange::SelectOnly(4));
    assert_eq!(click_selection(Some(4), true, true, true), SelectionChange::Toggle(4));
    assert_eq!(click_selection(Some(4), true, false, false), SelectionChange::Keep);
    assert_eq!(click_selection(Some(4), false, false, true), SelectionChange::Keep);
    assert_eq!(click_selection(None, true, false, false), SelectionChange::ClearAll);
    assert_eq!(click_selection(None, false, true, true), SelectionChange::Keep);
}

#[test]
fn focus_moves_with_the_hover() {
    assert_eq!(focus_change(None, Some(2)), FocusChange { show: Some(2), hide: None, focus: Some(2) });
    assert_eq!(focus_change(Some(2), Some(2)), FocusChange { show: None, hide: None, focus: Some(2) });
    assert_eq!(focus_change(Some(2), Some(3)), FocusChange { show: Some(3), hide: Some(2), focus: Some(3) });
    assert_eq!(focus_change(Some(3), None), FocusChange { show: None, hide: Some(3), focus: None });
    assert_eq!(focus_change(None, None), FocusChange { show: None, hide: None, focus: None });
}

#[test]
fn always_on_top_depth() {
    let mut depth = Some(DepthSettings { depth_compare: CompareFunction::Less, depth_write_enabled: true });
    AlwaysOnTopExt::specialize(&mut depth);
    assert_eq!(depth, Some(DepthSettings { depth_compare: CompareFunction::Always, depth_write_enabled: false }));
    let mut none = None;
    AlwaysOnTopExt::specialize(&mut none);
    assert_eq!(none, None);
}

#[test]
fn debug_texture_rows_turn_by_one_colour() {
    let mut palette: [u8; 32] = [
        255, 102, 159, 255, 255, 159, 102, 255, 236, 255, 102, 255, 121, 255, 102, 255, 102, 255, 198, 255, 102, 198,
        255, 255, 121, 102, 255, 255, 236, 102, 255, 255,
    ];
    let mut expected = Vec::new();
    for _ in 0..8 {
        expected.extend_from_slice(&palette);
        palette.rotate_right(4);
    }
    let data = uv_debug_texture_data();
    assert_eq!(data.len(), TEXTURE_SIZE * TEXTURE_SIZE * 4);
    assert_eq!(data, expected);
    assert_eq!(&data[32..36], &[236, 102, 255, 255]);
}

#[test]
fn clicks_go_to_the_first_nearest_marker() {
    let max = 35.0f32.to_bits();
    let candidates = vec![
        (10u64, 40.0f32.to_bits()),
        (11, 12.5f32.to_bits()),
        (12, f32::NAN.to_bits()),
        (13, 3.0f32.to_bits()),
        (14, 3.0f32.to_bits()),
        (15, 35.0f32.to_bits()),
    ];
    assert_eq!(closest_marker(&candidates, max), Some(3));
    assert_eq!(closest_marker(&candidates[..3], max), Some(1));
    assert_eq!(closest_marker(&candidates[..1], max), None);
    assert_eq!(closest_marker(&candidates[5..], max), Some(0));
    assert_eq!(closest_marker(&[], max), None);
    assert_eq!(closest_marker(&candidates, f32::NAN.to_bits()), None);
}
